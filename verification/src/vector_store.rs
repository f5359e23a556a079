//! How the stored list of chunks changes: an upsert replaces the entry with the same chunk id in
//! place, or appends; deleting a document drops its chunks and keeps the others in order. The
//! entries themselves (with their embeddings) stay with the caller, which rebuilds the list from
//! the plan computed here.
use vstd::prelude::*;

use crate::retrieval::string_views;
use crate::text::str_equal;

verus! {

broadcast use vstd::string::group_string_axioms;

/// Where an entry of the list comes from after an upsert.
#[derive(Debug, Clone, Copy, PartialEq, Eq, Structural)]
pub enum Slot {
    /// The stored entry at this position.
    Kept(usize),
    /// The incoming entry at this position.
    Incoming(usize),
}

/// The chunk id of the entry a slot stands for.
pub open spec fn slot_id(old: Seq<Seq<char>>, new: Seq<Seq<char>>, s: Slot) -> Seq<char> {
    match s {
        Slot::Kept(j) => old[j as int],
        Slot::Incoming(i) => new[i as int],
    }
}

/// The first position at or after `k` whose entry has the chunk id `id`.
pub open spec fn first_with_id(
    old: Seq<Seq<char>>,
    new: Seq<Seq<char>>,
    layout: Seq<Slot>,
    id: Seq<char>,
    k: int,
) -> Option<int>
    decreases layout.len() - k,
{
    if k < 0 || k >= layout.len() {
        None
    } else if slot_id(old, new, layout[k]) == id {
        Some(k)
    } else {
        first_with_id(old, new, layout, id, k + 1)
    }
}

/// The list after the first `n` incoming entries were upserted, one after the other: each
/// replaces the first entry with its chunk id, or is appended when there is none.
pub open spec fn upsert_layout(old: Seq<Seq<char>>, new: Seq<Seq<char>>, n: nat) -> Seq<Slot>
    decreases n,
{
    if n == 0 {
        Seq::new(old.len(), |j: int| Slot::Kept(j as usize))
    } else {
        let prev = upsert_layout(old, new, (n - 1) as nat);
        match first_with_id(old, new, prev, new[n - 1], 0) {
            Some(k) => prev.update(k, Slot::Incoming((n - 1) as usize)),
            None => prev.push(Slot::Incoming((n - 1) as usize)),
        }
    }
}

/// Every slot points at an entry that exists.
pub open spec fn slots_valid(old_len: nat, n: nat, layout: Seq<Slot>) -> bool {
    forall|k: int|
        0 <= k < layout.len() ==> match #[trigger] layout[k] {
            Slot::Kept(j) => j < old_len,
            Slot::Incoming(i) => i < n,
        }
}

/// No two entries of the list share a chunk id.
pub open spec fn ids_distinct(old: Seq<Seq<char>>, new: Seq<Seq<char>>, layout: Seq<Slot>) -> bool {
    forall|a: int, b: int|
        0 <= a < b < layout.len() ==> slot_id(old, new, #[trigger] layout[a]) != slot_id(
            old,
            new,
            #[trigger] layout[b],
        )
}

proof fn lemma_first_with_id(old: Seq<Seq<char>>, new: Seq<Seq<char>>, layout: Seq<Slot>, id: Seq<char>, k: int)
    requires
        0 <= k,
    ensures
        first_with_id(old, new, layout, id, k) matches Some(p) ==> k <= p < layout.len()
            && slot_id(old, new, layout[p]) == id && forall|q: int|
            k <= q < p ==> slot_id(old, new, #[trigger] layout[q]) != id,
        first_with_id(old, new, layout, id, k) is None ==> forall|q: int|
            k <= q < layout.len() ==> slot_id(old, new, #[trigger] layout[q]) != id,
    decreases layout.len() - k,
{
    if k < layout.len() && slot_id(old, new, layout[k]) != id {
        lemma_first_with_id(old, new, layout, id, k + 1);
    }
}

proof fn lemma_layout_valid(old: Seq<Seq<char>>, new: Seq<Seq<char>>, n: nat)
    requires
        n <= new.len(),
        old.len() <= usize::MAX,
        new.len() <= usize::MAX,
    ensures
        slots_valid(old.len(), n, upsert_layout(old, new, n)),
        upsert_layout(old, new, n).len() >= old.len(),
        upsert_layout(old, new, n).len() <= old.len() + n,
    decreases n,
{
    if n > 0 {
        lemma_layout_valid(old, new, (n - 1) as nat);
        let prev = upsert_layout(old, new, (n - 1) as nat);
        lemma_first_with_id(old, new, prev, new[n - 1], 0);
        let l = upsert_layout(old, new, n);
        assert forall|k: int| 0 <= k < l.len() implies match #[trigger] l[k] {
            Slot::Kept(j) => j < old.len(),
            Slot::Incoming(i) => i < n,
        } by {
            if k < prev.len() {
                assert(match prev[k] {
                    Slot::Kept(j) => j < old.len(),
                    Slot::Incoming(i) => i < n - 1,
                });
            }
        }
    } else {
        let l = upsert_layout(old, new, 0);
        assert forall|k: int| 0 <= k < l.len() implies match #[trigger] l[k] {
            Slot::Kept(j) => j < old.len(),
            Slot::Incoming(i) => i < n,
        } by {
            assert(l[k] == Slot::Kept(k as usize));
        }
    }
}

/// The plan of an upsert: the incoming entries with the chunk ids `incoming` go into the list
/// whose entries have the chunk ids `existing`.
pub fn plan_upsert(existing: &[String], incoming: &[String]) -> (r: Vec<Slot>)
    ensures
        r@ == upsert_layout(string_views(existing@), string_views(incoming@), incoming@.len()),
        slots_valid(existing@.len(), incoming@.len(), r@),
{
    let ghost old = string_views(existing@);
    let ghost new = string_views(incoming@);
    let mut layout: Vec<Slot> = Vec::new();
    let mut j: usize = 0;
    while j < existing.len()
        invariant
            j <= existing@.len(),
            layout@.len() == j,
            forall|k: int| 0 <= k < j ==> #[trigger] layout@[k] == Slot::Kept(k as usize),
        decreases existing.len() - j,
    {
        layout.push(Slot::Kept(j));
        j = j + 1;
    }
    assert(layout@ =~= upsert_layout(old, new, 0));
    assert(existing@.len() == existing.len() && incoming@.len() == incoming.len());
    let mut i: usize = 0;
    while i < incoming.len()
        invariant
            i <= incoming@.len(),
            old == string_views(existing@),
            new == string_views(incoming@),
            old.len() == existing@.len(),
            new.len() == incoming@.len(),
            existing@.len() <= usize::MAX,
            incoming@.len() <= usize::MAX,
            layout@ == upsert_layout(old, new, i as nat),
            slots_valid(existing@.len(), i as nat, layout@),
        decreases incoming.len() - i,
    {
        proof {
            lemma_layout_valid(old, new, i as nat);
        }
        let ghost prev = layout@;
        let mut k: usize = 0;
        let mut found = false;
        while k < layout.len() && !found
            invariant
                k <= layout@.len(),
                i < incoming@.len(),
                layout@ == prev,
                old == string_views(existing@),
                new == string_views(incoming@),
                slots_valid(existing@.len(), i as nat, prev),
                !found ==> first_with_id(old, new, prev, new[i as int], 0) == first_with_id(
                    old,
                    new,
                    prev,
                    new[i as int],
                    k as int,
                ),
                found ==> k < prev.len() && first_with_id(old, new, prev, new[i as int], 0)
                    == Some(k as int),
            decreases layout.len() - k + (if found { 0int } else { 1int }),
        {
            proof {
                assert(match prev[k as int] {
                    Slot::Kept(j) => j < existing@.len(),
                    Slot::Incoming(i2) => i2 < i,
                });
            }
            let id_here = match layout[k] {
                Slot::Kept(p) => &existing[p],
                Slot::Incoming(p) => &incoming[p],
            };
            if str_equal(id_here.as_str(), incoming[i].as_str()) {
                found = true;
            } else {
                k = k + 1;
            }
        }
        proof {
            lemma_first_with_id(old, new, prev, new[i as int], 0);
        }
        if found {
            layout.set(k, Slot::Incoming(i));
        } else {
            layout.push(Slot::Incoming(i));
        }
        i = i + 1;
        proof {
            lemma_layout_valid(old, new, i as nat);
        }
    }
    layout
}

/// An upsert never stores a chunk id twice: when the stored entries had distinct chunk ids,
/// so has the list after any number of incoming entries.
pub proof fn lemma_upsert_keeps_ids_distinct(old: Seq<Seq<char>>, new: Seq<Seq<char>>, n: nat)
    requires
        n <= new.len(),
        old.len() <= usize::MAX,
        new.len() <= usize::MAX,
        forall|a: int, b: int| 0 <= a < b < old.len() ==> old[a] != old[b],
    ensures
        ids_distinct(old, new, upsert_layout(old, new, n)),
    decreases n,
{
    if n == 0 {
        let l = upsert_layout(old, new, 0);
        assert forall|a: int, b: int| 0 <= a < b < l.len() implies slot_id(old, new, #[trigger] l[a])
            != slot_id(old, new, #[trigger] l[b]) by {
            assert(l[a] == Slot::Kept(a as usize));
            assert(l[b] == Slot::Kept(b as usize));
        }
    } else {
        lemma_upsert_keeps_ids_distinct(old, new, (n - 1) as nat);
        let prev = upsert_layout(old, new, (n - 1) as nat);
        let id = new[n - 1];
        lemma_first_with_id(old, new, prev, id, 0);
        let l = upsert_layout(old, new, n);
        match first_with_id(old, new, prev, id, 0) {
            Some(k) => {
                assert forall|q: int| 0 <= q < l.len() implies slot_id(old, new, #[trigger] l[q])
                    == slot_id(old, new, prev[q]) by {}
                assert forall|a: int, b: int| 0 <= a < b < l.len() implies slot_id(
                    old,
                    new,
                    #[trigger] l[a],
                ) != slot_id(old, new, #[trigger] l[b]) by {
                    assert(slot_id(old, new, l[a]) == slot_id(old, new, prev[a]));
                    assert(slot_id(old, new, l[b]) == slot_id(old, new, prev[b]));
                }
            },
            None => {
                assert forall|a: int, b: int| 0 <= a < b < l.len() implies slot_id(
                    old,
                    new,
                    #[trigger] l[a],
                ) != slot_id(old, new, #[trigger] l[b]) by {
                    if b == prev.len() {
                        assert(slot_id(old, new, prev[a]) != id);
                    } else {
                        assert(slot_id(old, new, prev[a]) != slot_id(old, new, prev[b]));
                    }
                }
            },
        }
    }
}

/// What was upserted can be read back: for every incoming entry, the list holds an incoming
/// entry with its chunk id that came at the same point or later (the last write wins).
pub proof fn lemma_upsert_last_write_wins(old: Seq<Seq<char>>, new: Seq<Seq<char>>, n: nat, i: int)
    requires
        n <= new.len(),
        new.len() <= usize::MAX,
        0 <= i < n,
    ensures
        exists|k: int, m: int|
            0 <= k < upsert_layout(old, new, n).len() && i <= m < n && #[trigger] upsert_layout(
                old,
                new,
                n,
            )[k] == Slot::Incoming(m as usize) && #[trigger] new[m] == new[i],
    decreases n,
{
    let prev = upsert_layout(old, new, (n - 1) as nat);
    let id = new[n - 1];
    let l = upsert_layout(old, new, n);
    lemma_first_with_id(old, new, prev, id, 0);
    if i == n - 1 {
        match first_with_id(old, new, prev, id, 0) {
            Some(k) => {
                assert(l[k] == Slot::Incoming(i as usize));
            },
            None => {
                assert(l[prev.len() as int] == Slot::Incoming(i as usize));
            },
        }
    } else {
        lemma_upsert_last_write_wins(old, new, (n - 1) as nat, i);
        let (k0, m0) = choose|k: int, m: int|
            0 <= k < prev.len() && i <= m < n - 1 && #[trigger] prev[k] == Slot::Incoming(m as usize)
                && #[trigger] new[m] == new[i];
        match first_with_id(old, new, prev, id, 0) {
            Some(k) => {
                if k == k0 {
                    assert(slot_id(old, new, prev[k0]) == new[m0]);
                    assert(l[k0] == Slot::Incoming((n - 1) as usize));
                } else {
                    assert(l[k0] == Slot::Incoming(m0 as usize));
                }
            },
            None => {
                assert(l[k0] == Slot::Incoming(m0 as usize));
            },
        }
    }
}

/// A stored entry whose chunk id is not among the incoming ones stays where it was.
pub proof fn lemma_upsert_keeps_others(old: Seq<Seq<char>>, new: Seq<Seq<char>>, n: nat, j: int)
    requires
        n <= new.len(),
        old.len() <= usize::MAX,
        new.len() <= usize::MAX,
        0 <= j < old.len(),
        forall|i: int| 0 <= i < n ==> new[i] != old[j],
    ensures
        upsert_layout(old, new, n).len() >= old.len(),
        upsert_layout(old, new, n)[j] == Slot::Kept(j as usize),
    decreases n,
{
    lemma_layout_valid(old, new, n);
    if n > 0 {
        lemma_upsert_keeps_others(old, new, (n - 1) as nat, j);
        let prev = upsert_layout(old, new, (n - 1) as nat);
        let id = new[n - 1];
        lemma_first_with_id(old, new, prev, id, 0);
        assert(slot_id(old, new, prev[j]) == old[j]);
    }
}

/// The positions of the stored entries that remain when the document `doc` is deleted: those
/// of every entry of another document, in order.
pub fn plan_delete(document_ids: &[String], doc: &str) -> (r: Vec<usize>)
    ensures
        forall|k: int|
            0 <= k < r@.len() ==> #[trigger] r@[k] < document_ids@.len() && document_ids@[r@[k] as int]@
                != doc@,
        forall|a: int, b: int| 0 <= a < b < r@.len() ==> #[trigger] r@[a] < #[trigger] r@[b],
        forall|j: int|
            0 <= j < document_ids@.len() && (#[trigger] document_ids@[j])@ != doc@ ==> exists|k: int|
                0 <= k < r@.len() && r@[k] == j,
{
    let mut out: Vec<usize> = Vec::new();
    let mut j: usize = 0;
    while j < document_ids.len()
        invariant
            j <= document_ids@.len(),
            forall|k: int|
                0 <= k < out@.len() ==> #[trigger] out@[k] < j && document_ids@[out@[k] as int]@
                    != doc@,
            forall|a: int, b: int| 0 <= a < b < out@.len() ==> #[trigger] out@[a] < #[trigger] out@[b],
            forall|q: int|
                0 <= q < j && (#[trigger] document_ids@[q])@ != doc@ ==> exists|k: int|
                    0 <= k < out@.len() && out@[k] == q,
        decreases document_ids.len() - j,
    {
        if !str_equal(document_ids[j].as_str(), doc) {
            let ghost before = out@;
            out.push(j);
            proof {
                assert forall|q: int|
                    0 <= q < j + 1 && (#[trigger] document_ids@[q])@ != doc@ implies exists|k: int|
                    0 <= k < out@.len() && out@[k] == q by {
                    if q == j {
                        assert(out@[before.len() as int] == q);
                    } else {
                        let k0 = choose|k: int| 0 <= k < before.len() && before[k] == q;
                        assert(out@[k0] == q);
                    }
                }
            }
        }
        j = j + 1;
    }
    out
}

/// The entries kept, among the first `n`, when the chunks of the document `doc` are dropped.
pub open spec fn kept_slots(owners: Seq<Seq<char>>, doc: Seq<char>, n: int) -> Seq<Slot>
    decreases n,
{
    if n <= 0 {
        seq![]
    } else if owners[n - 1] != doc {
        kept_slots(owners, doc, n - 1).push(Slot::Kept((n - 1) as usize))
    } else {
        kept_slots(owners, doc, n - 1)
    }
}

/// The list after re-indexing the document `doc` with `incoming` new chunks: the entries of
/// other documents, in order, then the new chunks, in order.
pub open spec fn replace_layout(owners: Seq<Seq<char>>, doc: Seq<char>, incoming: nat) -> Seq<Slot> {
    kept_slots(owners, doc, owners.len() as int) + Seq::new(incoming, |i: int| Slot::Incoming(i as usize))
}

/// The plan of re-indexing a document: the stored entries, owned by the documents
/// `document_ids`, lose every chunk of `doc`, and the `incoming` new chunks follow the others.
pub fn plan_replace_document(document_ids: &[String], doc: &str, incoming: usize) -> (r: Vec<Slot>)
    ensures
        r@ == replace_layout(string_views(document_ids@), doc@, incoming as nat),
{
    let ghost owners = string_views(document_ids@);
    let mut out: Vec<Slot> = Vec::new();
    let mut j: usize = 0;
    while j < document_ids.len()
        invariant
            j <= document_ids@.len(),
            owners == string_views(document_ids@),
            out@ == kept_slots(owners, doc@, j as int),
        decreases document_ids.len() - j,
    {
        if !str_equal(document_ids[j].as_str(), doc) {
            out.push(Slot::Kept(j));
        }
        j = j + 1;
    }
    let ghost kept = out@;
    let mut i: usize = 0;
    while i < incoming
        invariant
            i <= incoming,
            out@ == kept + Seq::new(i as nat, |k: int| Slot::Incoming(k as usize)),
        decreases incoming - i,
    {
        out.push(Slot::Incoming(i));
        proof {
            assert(out@ =~= kept + Seq::new((i + 1) as nat, |k: int| Slot::Incoming(k as usize)));
        }
        i = i + 1;
    }
    out
}

proof fn lemma_kept_slots(owners: Seq<Seq<char>>, doc: Seq<char>, n: int)
    requires
        0 <= n <= owners.len(),
        owners.len() <= usize::MAX,
    ensures
        forall|k: int|
            0 <= k < kept_slots(owners, doc, n).len() ==> ((#[trigger] kept_slots(owners, doc, n)[k]) matches Slot::Kept(
                j,
            ) && j < n && owners[j as int] != doc),
        forall|j: int|
            0 <= j < n && #[trigger] owners[j] != doc ==> kept_slots(owners, doc, n).contains(
                Slot::Kept(j as usize),
            ),
    decreases n,
{
    if n > 0 {
        lemma_kept_slots(owners, doc, n - 1);
        let prev = kept_slots(owners, doc, n - 1);
        let cur = kept_slots(owners, doc, n);
        assert forall|j: int| 0 <= j < n && #[trigger] owners[j] != doc implies cur.contains(
            Slot::Kept(j as usize),
        ) by {
            if j < n - 1 {
                let k = choose|k: int| 0 <= k < prev.len() && prev[k] == Slot::Kept(j as usize);
                assert(cur[k] == Slot::Kept(j as usize));
            } else {
                assert(cur[prev.len() as int] == Slot::Kept(j as usize));
            }
        }
    }
}

/// Re-indexing a document replaces its chunks: afterwards no stored entry of that document
/// remains, every entry of another document stays, and each new chunk is stored once.
pub proof fn lemma_replace_document(owners: Seq<Seq<char>>, doc: Seq<char>, incoming: nat)
    requires
        owners.len() <= usize::MAX,
        incoming <= usize::MAX,
    ensures
        forall|k: int|
            0 <= k < replace_layout(owners, doc, incoming).len() ==> match #[trigger] replace_layout(
                owners,
                doc,
                incoming,
            )[k] {
                Slot::Kept(j) => j < owners.len() && owners[j as int] != doc,
                Slot::Incoming(i) => i < incoming,
            },
        forall|j: int|
            0 <= j < owners.len() && #[trigger] owners[j] != doc ==> replace_layout(
                owners,
                doc,
                incoming,
            ).contains(Slot::Kept(j as usize)),
        forall|i: int|
            0 <= i < incoming ==> #[trigger] replace_layout(owners, doc, incoming)[kept_slots(
                owners,
                doc,
                owners.len() as int,
            ).len() + i] == Slot::Incoming(i as usize),
{
    let n = owners.len() as int;
    lemma_kept_slots(owners, doc, n);
    let kept = kept_slots(owners, doc, n);
    let l = replace_layout(owners, doc, incoming);
    assert forall|k: int| 0 <= k < l.len() implies match #[trigger] l[k] {
        Slot::Kept(j) => j < owners.len() && owners[j as int] != doc,
        Slot::Incoming(i) => i < incoming,
    } by {
        if k < kept.len() {
            assert(l[k] == kept[k]);
        } else {
            assert(l[k] == Slot::Incoming((k - kept.len()) as usize));
        }
    }
    assert forall|j: int| 0 <= j < n && #[trigger] owners[j] != doc implies l.contains(
        Slot::Kept(j as usize),
    ) by {
        assert(kept.contains(Slot::Kept(j as usize)));
        let k = choose|k: int| 0 <= k < kept.len() && kept[k] == Slot::Kept(j as usize);
        assert(l[k] == Slot::Kept(j as usize));
    }
}

} // verus!
