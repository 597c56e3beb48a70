//! Overlay semantics of layer decompression.
//!
//! Layers are unpacked in manifest order onto one staging directory: later
//! layers overwrite same-named entries of earlier ones, directories merge.
//! This module carries that rule: a layer is its entries in archive order,
//! the staged directory is the fold of all writes, and the last write to a
//! path is what stays — so the order of the layers matters.

use vstd::prelude::*;
use crate::kv::{alist_upsert, keys_unique, view_map};

verus! {

/// One decompressed layer: its file entries, in archive order.
pub struct LayerArchive {
    /// Path and content of each written file.
    pub entries: Vec<(String, Vec<u8>)>,
}

/// Applies the writes of one entry list, first to last, onto `m`.
pub open spec fn apply_entries(
    m: Map<Seq<char>, Seq<u8>>,
    es: Seq<(String, Vec<u8>)>,
) -> Map<Seq<char>, Seq<u8>>
    decreases es.len(),
{
    if es.len() == 0 {
        m
    } else {
        apply_entries(m, es.drop_last()).insert(es.last().0@, es.last().1@)
    }
}

/// The staged directory after unpacking all layers, bottom to top.
pub open spec fn overlay_all(ls: Seq<LayerArchive>) -> Map<Seq<char>, Seq<u8>>
    decreases ls.len(),
{
    if ls.len() == 0 {
        Map::empty()
    } else {
        apply_entries(overlay_all(ls.drop_last()), ls.last().entries@)
    }
}

/// A copy of a byte vector.
fn clone_bytes(v: &Vec<u8>) -> (r: Vec<u8>)
    ensures
        r@ == v@,
{
    let mut r: Vec<u8> = Vec::new();
    let mut i: usize = 0;
    while i < v.len()
        invariant
            0 <= i <= v@.len(),
            r@.len() == i,
            forall|j: int| 0 <= j < i ==> #[trigger] r@[j] == v@[j],
        decreases v@.len() - i,
    {
        r.push(v[i]);
        i = i + 1;
    }
    proof {
        assert(r@ =~= v@);
    }
    r
}

/// Unpacks the layers, in order, onto one staged directory: each write puts
/// its content under its path, overwriting whatever an earlier write left.
pub fn apply_layers(layers: &Vec<LayerArchive>) -> (r: Vec<(String, Vec<u8>)>)
    ensures
        keys_unique(r@),
        view_map(r@) == overlay_all(layers@),
{
    let mut staged: Vec<(String, Vec<u8>)> = Vec::new();
    proof {
        assert(view_map(staged@) =~= Map::<Seq<char>, Seq<u8>>::empty());
        assert(layers@.subrange(0, 0) =~= Seq::<LayerArchive>::empty());
    }
    let mut i: usize = 0;
    while i < layers.len()
        invariant
            0 <= i <= layers@.len(),
            keys_unique(staged@),
            view_map(staged@) == overlay_all(layers@.subrange(0, i as int)),
        decreases layers@.len() - i,
    {
        let entries = &layers[i].entries;
        let ghost base = view_map(staged@);
        let mut e: usize = 0;
        while e < entries.len()
            invariant
                0 <= e <= entries@.len(),
                entries == &layers@[i as int].entries,
                0 <= i < layers@.len(),
                keys_unique(staged@),
                view_map(staged@) == apply_entries(base, entries@.subrange(0, e as int)),
            decreases entries@.len() - e,
        {
            proof {
                assert(apply_entries(base, entries@.subrange(0, e as int)) == view_map(staged@));
            }
            alist_upsert(&mut staged, entries[e].0.clone(), clone_bytes(&entries[e].1));
            proof {
                let pre = entries@.subrange(0, e as int);
                let cur = entries@.subrange(0, e + 1);
                assert(cur.drop_last() =~= pre);
                assert(cur.last() == entries@[e as int]);
                assert(view_map(staged@) == apply_entries(base, cur));
            }
            e = e + 1;
        }
        proof {
            assert(entries@.subrange(0, entries@.len() as int) =~= entries@);
            let pre = layers@.subrange(0, i as int);
            let cur = layers@.subrange(0, i + 1);
            assert(cur.drop_last() =~= pre);
            assert(cur.last() == layers@[i as int]);
            assert(view_map(staged@) == overlay_all(cur));
        }
        i = i + 1;
    }
    proof {
        assert(layers@.subrange(0, layers@.len() as int) =~= layers@);
    }
    staged
}

/// After applying an entry list, a path whose last write is entry `e` holds
/// that entry's content.
pub proof fn lemma_apply_entries_at(
    m: Map<Seq<char>, Seq<u8>>,
    es: Seq<(String, Vec<u8>)>,
    p: Seq<char>,
    e: int,
)
    requires
        0 <= e < es.len(),
        es[e].0@ == p,
        forall|l: int| e < l < es.len() ==> (#[trigger] es[l]).0@ != p,
    ensures
        apply_entries(m, es).contains_key(p),
        apply_entries(m, es)[p] == es[e].1@,
    decreases es.len(),
{
    if e == es.len() - 1 {
        assert(es.last() == es[e]);
    } else {
        assert(es.last().0@ != p);
        lemma_apply_entries_at(m, es.drop_last(), p, e);
    }
}

/// An entry list that never writes a path leaves it as it was.
pub proof fn lemma_apply_entries_absent(
    m: Map<Seq<char>, Seq<u8>>,
    es: Seq<(String, Vec<u8>)>,
    p: Seq<char>,
)
    requires
        forall|l: int| 0 <= l < es.len() ==> (#[trigger] es[l]).0@ != p,
    ensures
        apply_entries(m, es).contains_key(p) == m.contains_key(p),
        m.contains_key(p) ==> apply_entries(m, es)[p] == m[p],
    decreases es.len(),
{
    if es.len() > 0 {
        assert(es.last().0@ != p);
        lemma_apply_entries_absent(m, es.drop_last(), p);
    }
}

/// The last write wins, and so the order of the layers matters: when entry
/// `e` of layer `j` is the last write to path `p` over the whole stack, the
/// staged directory holds exactly that entry's content under `p`. Stacking
/// the same layers so that a different write comes last gives that other
/// write's content instead.
pub proof fn lemma_last_write_wins(ls: Seq<LayerArchive>, p: Seq<char>, j: int, e: int)
    requires
        0 <= j < ls.len(),
        0 <= e < ls[j].entries@.len(),
        ls[j].entries@[e].0@ == p,
        forall|l: int| e < l < ls[j].entries@.len() ==> (#[trigger] ls[j].entries@[l]).0@ != p,
        forall|l: int, f: int|
            j < l < ls.len() && 0 <= f < ls[l].entries@.len() ==> (#[trigger] ls[l].entries@[
                f
            ]).0@ != p,
    ensures
        overlay_all(ls).contains_key(p),
        overlay_all(ls)[p] == ls[j].entries@[e].1@,
    decreases ls.len(),
{
    if j == ls.len() - 1 {
        assert(ls.last() == ls[j]);
        lemma_apply_entries_at(overlay_all(ls.drop_last()), ls[j].entries@, p, e);
    } else {
        assert forall|f: int|
            0 <= f < ls.last().entries@.len() implies (#[trigger] ls.last().entries@[f]).0@
            != p by {
            assert(ls[ls.len() - 1].entries@[f].0@ != p);
        }
        lemma_apply_entries_absent(overlay_all(ls.drop_last()), ls.last().entries@, p);
        assert(ls.drop_last()[j] == ls[j]);
        lemma_last_write_wins(ls.drop_last(), p, j, e);
    }
}

} // verus!
