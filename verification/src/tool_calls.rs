//! Reassembly of fragmented tool-call deltas.
//!
//! Providers stream a tool call as fragments that may carry an index, an id,
//! a function name and a piece of the argument text — in any combination,
//! with the index omitted after the first fragment, the id sent only once,
//! or the name re-sent as an empty string.  The accumulator resolves each
//! fragment to a stable call and merges it; finalisation keeps first-seen
//! order and silently drops calls that never received a name.

use vstd::prelude::*;

verus! {

/// One streamed tool-call fragment, as plain values.
#[derive(Debug, Clone, PartialEq, Eq)]
pub struct ToolCallDelta {
    pub index: Option<usize>,
    pub id: Option<String>,
    pub name: Option<String>,
    pub arguments: Option<String>,
}

/// One call being reassembled: its stable index, the provider-supplied id,
/// the function name, and the argument text accumulated in arrival order.
#[derive(Debug, Clone, PartialEq, Eq)]
pub struct ToolCallEntry {
    pub index: usize,
    pub id: Option<String>,
    pub name: Option<String>,
    pub arguments: String,
}

/// Mathematical image of an entry: the strings as character sequences.
#[verifier::ext_equal]
pub struct EntryModel {
    pub index: usize,
    pub id: Option<Seq<char>>,
    pub name: Option<Seq<char>>,
    pub arguments: Seq<char>,
}

/// Mathematical image of the whole accumulator.
#[verifier::ext_equal]
pub struct AccumView {
    pub calls: Seq<EntryModel>,
    pub id_map: Seq<(Seq<char>, usize)>,
    pub next_index: int,
    pub last_index: Option<usize>,
}

/// The model of one entry.
pub open spec fn entry_model(e: ToolCallEntry) -> EntryModel {
    EntryModel {
        index: e.index,
        id: match e.id {
            Some(s) => Some(s@),
            None => None,
        },
        name: match e.name {
            Some(s) => Some(s@),
            None => None,
        },
        arguments: e.arguments@,
    }
}

/// The model of a sequence of entries.
pub open spec fn calls_model(s: Seq<ToolCallEntry>) -> Seq<EntryModel> {
    s.map_values(|e: ToolCallEntry| entry_model(e))
}

/// True when some entry carries index `idx`.
pub open spec fn occupied(calls: Seq<EntryModel>, idx: int) -> bool {
    exists|k: int| 0 <= k < calls.len() && calls[k].index as int == idx
}

/// Position of the entry with index `idx` at or after `i`, scanning left to right.
pub open spec fn find_call_from(calls: Seq<EntryModel>, idx: usize, i: int) -> Option<int>
    decreases calls.len() - i,
{
    if i < 0 || i >= calls.len() {
        None
    } else if calls[i].index == idx {
        Some(i)
    } else {
        find_call_from(calls, idx, i + 1)
    }
}

/// Position of the entry with index `idx`, if any.
pub open spec fn find_call(calls: Seq<EntryModel>, idx: usize) -> Option<int> {
    find_call_from(calls, idx, 0)
}

/// What `find_call_from` returns.
pub proof fn lemma_find_call_from_props(calls: Seq<EntryModel>, idx: usize, i: int)
    requires
        i >= 0,
    ensures
        match find_call_from(calls, idx, i) {
            Some(j) => i <= j < calls.len() && calls[j].index == idx && forall|k: int|
                i <= k < j ==> calls[k].index != idx,
            None => forall|k: int| i <= k < calls.len() ==> calls[k].index != idx,
        },
    decreases calls.len() - i,
{
    if i >= calls.len() {
    } else if calls[i].index == idx {
    } else {
        lemma_find_call_from_props(calls, idx, i + 1);
    }
}

/// What `find_call` returns.
pub proof fn lemma_find_call_props(calls: Seq<EntryModel>, idx: usize)
    ensures
        match find_call(calls, idx) {
            Some(j) => 0 <= j < calls.len() && calls[j].index == idx && forall|k: int|
                0 <= k < j ==> calls[k].index != idx,
            None => forall|k: int| 0 <= k < calls.len() ==> calls[k].index != idx,
        },
{
    lemma_find_call_from_props(calls, idx, 0);
}

/// A leftmost witness pins down `find_call`.
pub proof fn lemma_find_call_is(calls: Seq<EntryModel>, idx: usize, j: int)
    requires
        0 <= j < calls.len(),
        calls[j].index == idx,
        forall|k: int| 0 <= k < j ==> calls[k].index != idx,
    ensures
        find_call(calls, idx) == Some(j),
{
    lemma_find_call_props(calls, idx);
    match find_call(calls, idx) {
        Some(m) => {
            if m < j {
                assert(calls[m].index != idx);
            }
            if j < m {
                assert(calls[j].index != idx);
            }
        },
        None => {
            assert(calls[j].index != idx);
        },
    }
}

/// Index bound to `id` at or after `i`, scanning left to right.
pub open spec fn id_lookup_from(map: Seq<(Seq<char>, usize)>, id: Seq<char>, i: int) -> Option<
    usize,
>
    decreases map.len() - i,
{
    if i < 0 || i >= map.len() {
        None
    } else if map[i].0 =~= id {
        Some(map[i].1)
    } else {
        id_lookup_from(map, id, i + 1)
    }
}

/// Index bound to `id`, if any; the first binding of an id wins forever.
pub open spec fn id_lookup(map: Seq<(Seq<char>, usize)>, id: Seq<char>) -> Option<usize> {
    id_lookup_from(map, id, 0)
}

/// The smallest unoccupied index at or after `j`; saturates at the largest
/// machine integer, which no real stream ever reaches.
pub open spec fn first_free_from(calls: Seq<EntryModel>, j: int) -> int
    decreases usize::MAX as int - j when j <= usize::MAX as int
{
    if j >= usize::MAX as int {
        usize::MAX as int
    } else if !occupied(calls, j) {
        j
    } else {
        first_free_from(calls, j + 1)
    }
}

/// The first free index lies between the scan start and the saturation cap.
pub proof fn lemma_first_free_from_range(calls: Seq<EntryModel>, j: int)
    requires
        0 <= j <= usize::MAX as int,
    ensures
        j <= first_free_from(calls, j) <= usize::MAX as int,
    decreases usize::MAX as int - j,
{
    if j >= usize::MAX as int {
    } else if !occupied(calls, j) {
    } else {
        lemma_first_free_from_range(calls, j + 1);
    }
}

/// The resolved index is always a machine integer.
pub proof fn lemma_resolved_index_range(v: AccumView, d: ToolCallDelta)
    requires
        accum_wf(v),
    ensures
        0 <= resolved_index(v, d) <= usize::MAX as int,
{
    lemma_first_free_from_range(v.calls, v.next_index);
}

/// The index a fragment resolves to, in order of precedence: an already
/// established id binding; the fragment's own index; for an id never seen
/// before and no index, a fresh index; with neither index nor id, the index
/// of the immediately preceding fragment; otherwise a fresh index.
pub open spec fn resolved_index(v: AccumView, d: ToolCallDelta) -> int {
    let fresh = first_free_from(v.calls, v.next_index);
    if d.id is Some && id_lookup(v.id_map, d.id.unwrap()@) is Some {
        id_lookup(v.id_map, d.id.unwrap()@).unwrap() as int
    } else if d.index is Some {
        d.index.unwrap() as int
    } else if d.id is Some {
        fresh
    } else if v.last_index is Some {
        v.last_index.unwrap() as int
    } else {
        fresh
    }
}

/// Whether resolving `d` against `v` consumes a fresh index.
pub open spec fn uses_fresh_index(v: AccumView, d: ToolCallDelta) -> bool {
    &&& !(d.id is Some && id_lookup(v.id_map, d.id.unwrap()@) is Some)
    &&& d.index is None
    &&& (d.id is Some || v.last_index is None)
}

/// An entry after merging one fragment into it: id and name stick to their
/// first value (first non-empty value, for the name); argument text is
/// appended, never reordered.
pub open spec fn merged_entry(e: EntryModel, d: ToolCallDelta) -> EntryModel {
    EntryModel {
        index: e.index,
        id: if e.id is None && d.id is Some {
            Some(d.id.unwrap()@)
        } else {
            e.id
        },
        name: if e.name is None && d.name is Some && d.name.unwrap()@.len() > 0 {
            Some(d.name.unwrap()@)
        } else {
            e.name
        },
        arguments: if d.arguments is Some {
            e.arguments + d.arguments.unwrap()@
        } else {
            e.arguments
        },
    }
}

/// A fresh, empty entry at the given index.
pub open spec fn blank_entry(idx: usize) -> EntryModel {
    EntryModel { index: idx, id: None, name: None, arguments: Seq::empty() }
}

/// The whole accumulator after one fragment.
pub open spec fn apply_delta_spec(v: AccumView, d: ToolCallDelta) -> AccumView {
    let idx = resolved_index(v, d);
    let next = if uses_fresh_index(v, d) {
        if idx < usize::MAX as int {
            idx + 1
        } else {
            usize::MAX as int
        }
    } else {
        v.next_index
    };
    let calls = match find_call(v.calls, idx as usize) {
        Some(pos) => v.calls.update(pos, merged_entry(v.calls[pos], d)),
        None => v.calls.push(merged_entry(blank_entry(idx as usize), d)),
    };
    let id_map = if d.id is Some && id_lookup(v.id_map, d.id.unwrap()@) is None {
        v.id_map.push((d.id.unwrap()@, idx as usize))
    } else {
        v.id_map
    };
    AccumView { calls, id_map, next_index: next, last_index: Some(idx as usize) }
}

/// The accumulator after a whole sequence of fragments.
pub open spec fn apply_deltas_spec(v: AccumView, ds: Seq<ToolCallDelta>) -> AccumView
    decreases ds.len(),
{
    if ds.len() == 0 {
        v
    } else {
        apply_deltas_spec(apply_delta_spec(v, ds[0]), ds.skip(1))
    }
}

/// Folding one more fragment extends the fold by one step.
pub proof fn lemma_apply_deltas_push(v: AccumView, ds: Seq<ToolCallDelta>, d: ToolCallDelta)
    ensures
        apply_deltas_spec(v, ds.push(d)) == apply_delta_spec(apply_deltas_spec(v, ds), d),
    decreases ds.len(),
{
    if ds.len() == 0 {
        assert(ds.push(d)[0] == d);
        assert(ds.push(d).skip(1) =~= Seq::<ToolCallDelta>::empty());
        assert(apply_deltas_spec(v, ds) == v);
        assert(apply_deltas_spec(apply_delta_spec(v, d), ds.push(d).skip(1)) == apply_delta_spec(
            v,
            d,
        ));
    } else {
        assert(ds.push(d)[0] == ds[0]);
        assert(ds.push(d).skip(1) =~= ds.skip(1).push(d));
        lemma_apply_deltas_push(apply_delta_spec(v, ds[0]), ds.skip(1), d);
        assert(apply_deltas_spec(v, ds.push(d)) == apply_deltas_spec(
            apply_delta_spec(v, ds[0]),
            ds.skip(1).push(d),
        ));
        assert(apply_deltas_spec(v, ds) == apply_deltas_spec(
            apply_delta_spec(v, ds[0]),
            ds.skip(1),
        ));
    }
}

/// The concatenation of the argument fragments of a delta sequence.
pub open spec fn fragments_concat(ds: Seq<ToolCallDelta>) -> Seq<char>
    decreases ds.len(),
{
    if ds.len() == 0 {
        Seq::empty()
    } else {
        (if ds[0].arguments is Some {
            ds[0].arguments.unwrap()@
        } else {
            Seq::empty()
        }) + fragments_concat(ds.skip(1))
    }
}

/// True for a call that received a name at some point.
pub open spec fn is_named(e: EntryModel) -> bool {
    e.name is Some
}

/// The complete calls, in first-seen order: those that received a name.
pub open spec fn named_calls(calls: Seq<EntryModel>) -> Seq<EntryModel>
    decreases calls.len(),
{
    if calls.len() == 0 {
        Seq::empty()
    } else {
        named_calls(calls.drop_last()) + (if is_named(calls.last()) {
            seq![calls.last()]
        } else {
            Seq::empty()
        })
    }
}

/// The state of a fresh accumulator.
pub open spec fn empty_accum() -> AccumView {
    AccumView { calls: Seq::empty(), id_map: Seq::empty(), next_index: 0, last_index: None }
}

/// Accumulator well-formedness: indices are unique, the fresh-index counter
/// is a machine integer.
pub open spec fn accum_wf(v: AccumView) -> bool {
    &&& forall|i: int, j: int|
        0 <= i < j < v.calls.len() ==> v.calls[i].index != v.calls[j].index
    &&& 0 <= v.next_index <= usize::MAX as int
}

/// One fragment keeps the accumulator well-formed.
pub proof fn lemma_apply_delta_wf(v: AccumView, d: ToolCallDelta)
    requires
        accum_wf(v),
    ensures
        accum_wf(apply_delta_spec(v, d)),
{
    let idx = resolved_index(v, d);
    lemma_resolved_index_range(v, d);
    lemma_find_call_props(v.calls, idx as usize);
    let w = apply_delta_spec(v, d);
    match find_call(v.calls, idx as usize) {
        Some(pos) => {
            assert forall|i: int, j: int|
                0 <= i < j < w.calls.len() implies w.calls[i].index != w.calls[j].index by {
                assert(v.calls[i].index != v.calls[j].index);
                assert(w.calls[i].index == v.calls[i].index);
                assert(w.calls[j].index == v.calls[j].index);
            }
        },
        None => {
            assert forall|i: int, j: int|
                0 <= i < j < w.calls.len() implies w.calls[i].index != w.calls[j].index by {
                if j < v.calls.len() {
                    assert(v.calls[i].index != v.calls[j].index);
                } else {
                    assert(w.calls[j].index == idx as usize);
                    assert(v.calls[i].index != idx as usize);
                }
            }
        },
    }
    if uses_fresh_index(v, d) {
        lemma_first_free_from_range(v.calls, v.next_index);
    }
}

/// The accumulator.  `calls` is in first-seen order with unique indices;
/// `id_map` records the first index each id was bound to and, like
/// `next_index` and `last_index`, survives finalisation.
#[derive(Debug)]
pub struct ToolCallAccumulator {
    pub calls: Vec<ToolCallEntry>,
    pub id_map: Vec<(String, usize)>,
    pub next_index: usize,
    pub last_index: Option<usize>,
}

impl View for ToolCallAccumulator {
    type V = AccumView;

    open spec fn view(&self) -> AccumView {
        AccumView {
            calls: calls_model(self.calls@),
            id_map: self.id_map@.map_values(|p: (String, usize)| (p.0@, p.1)),
            next_index: self.next_index as int,
            last_index: self.last_index,
        }
    }
}

impl ToolCallAccumulator {
    /// A fresh accumulator.
    pub fn new() -> (a: ToolCallAccumulator)
        ensures
            a@ == empty_accum(),
            accum_wf(a@),
    {
        let a = ToolCallAccumulator {
            calls: Vec::new(),
            id_map: Vec::new(),
            next_index: 0,
            last_index: None,
        };
        proof {
            assert(a@.calls =~= empty_accum().calls);
            assert(a@.id_map =~= empty_accum().id_map);
        }
        a
    }

    /// Index already bound to `id`, if any.
    fn lookup_id(&self, id: &String) -> (r: Option<usize>)
        ensures
            r == id_lookup(self@.id_map, id@),
    {
        let mut i: usize = 0;
        let n = self.id_map.len();
        while i < n
            invariant
                n == self.id_map@.len(),
                i <= n,
                self@.id_map.len() == n,
                id_lookup(self@.id_map, id@) == id_lookup_from(self@.id_map, id@, i as int),
            decreases n - i,
        {
            if self.id_map[i].0 == *id {
                proof {
                    assert(self@.id_map[i as int].0 =~= id@);
                }
                return Some(self.id_map[i].1);
            }
            proof {
                assert(!(self@.id_map[i as int].0 =~= id@));
            }
            i = i + 1;
        }
        None
    }

    /// Position in `calls` of the entry with the given index, if any.
    fn find_pos(&self, idx: usize) -> (r: Option<usize>)
        ensures
            match r {
                Some(p) => find_call(self@.calls, idx) == Some(p as int),
                None => find_call(self@.calls, idx) is None,
            },
    {
        let mut i: usize = 0;
        let n = self.calls.len();
        while i < n
            invariant
                n == self.calls@.len(),
                i <= n,
                self@.calls.len() == n,
                find_call(self@.calls, idx) == find_call_from(self@.calls, idx, i as int),
            decreases n - i,
        {
            if self.calls[i].index == idx {
                proof {
                    assert(self@.calls[i as int].index == idx);
                }
                return Some(i);
            }
            proof {
                assert(self@.calls[i as int].index != idx);
            }
            i = i + 1;
        }
        None
    }

    /// True when some entry carries index `j`.
    fn contains_index(&self, j: usize) -> (r: bool)
        ensures
            r == occupied(self@.calls, j as int),
    {
        match self.find_pos(j) {
            Some(_) => {
                proof {
                    lemma_find_call_props(self@.calls, j);
                }
                true
            },
            None => {
                proof {
                    lemma_find_call_props(self@.calls, j);
                }
                false
            },
        }
    }

    /// Claims the smallest unoccupied index at or after `next_index` and
    /// advances the counter past it.
    fn fresh_index(&mut self) -> (idx: usize)
        requires
            accum_wf(old(self)@),
        ensures
            idx as int == first_free_from(old(self)@.calls, old(self)@.next_index),
            final(self).calls == old(self).calls,
            final(self).id_map == old(self).id_map,
            final(self).last_index == old(self).last_index,
            final(self)@.next_index == if idx < usize::MAX {
                idx + 1
            } else {
                usize::MAX as int
            },
            accum_wf(final(self)@),
    {
        let ghost calls0 = self@.calls;
        let ghost n0 = self@.next_index;
        while self.next_index < usize::MAX && self.contains_index(self.next_index)
            invariant
                calls0 =~= self@.calls,
                old(self).calls == self.calls,
                old(self).id_map == self.id_map,
                old(self).last_index == self.last_index,
                n0 <= self.next_index as int <= usize::MAX as int,
                first_free_from(calls0, n0) == first_free_from(calls0, self.next_index as int),
            decreases usize::MAX as int - self.next_index,
        {
            self.next_index = self.next_index + 1;
        }
        let idx = self.next_index;
        if idx < usize::MAX {
            self.next_index = idx + 1;
        }
        idx
    }

    /// Merges one fragment into the call it resolves to, creating the call
    /// on first sight and recording a new id binding permanently.
    pub fn apply_delta(&mut self, d: &ToolCallDelta)
        requires
            accum_wf(old(self)@),
        ensures
            accum_wf(final(self)@),
            final(self)@.calls =~= apply_delta_spec(old(self)@, *d).calls,
            final(self)@.id_map =~= apply_delta_spec(old(self)@, *d).id_map,
            final(self)@.next_index == apply_delta_spec(old(self)@, *d).next_index,
            final(self)@.last_index == apply_delta_spec(old(self)@, *d).last_index,
    {
        let ghost v0 = self@;
        let mut index: Option<usize> = d.index;
        let mut id_was_mapped = false;
        if let Some(id) = &d.id {
            if let Some(mapped) = self.lookup_id(id) {
                index = Some(mapped);
                id_was_mapped = true;
            }
        }
        if index.is_none() && d.id.is_none() {
            index = self.last_index;
        }
        let idx = match index {
            Some(i) => i,
            None => self.fresh_index(),
        };
        proof {
            assert(idx as int == resolved_index(v0, *d));
            assert(self@.next_index == apply_delta_spec(v0, *d).next_index);
            assert(self@.calls =~= v0.calls);
            assert(self@.id_map =~= v0.id_map);
        }
        let pos = self.find_pos(idx);
        match pos {
            Some(p) => {
                proof {
                    lemma_find_call_props(self@.calls, idx);
                }
                let entry = self.calls.remove(p);
                let merged = merge_entry(entry, d);
                self.calls.insert(p, merged);
                proof {
                    assert(self@.calls =~= apply_delta_spec(v0, *d).calls);
                }
            },
            None => {
                let blank = ToolCallEntry {
                    index: idx,
                    id: None,
                    name: None,
                    arguments: String::new(),
                };
                let merged = merge_entry(blank, d);
                self.calls.push(merged);
                proof {
                    assert(self@.calls =~= apply_delta_spec(v0, *d).calls);
                }
            },
        }
        if let Some(id) = &d.id {
            if !id_was_mapped {
                self.id_map.push((id.clone(), idx));
                proof {
                    assert(self@.id_map =~= apply_delta_spec(v0, *d).id_map);
                }
            }
        }
        self.last_index = Some(idx);
        proof {
            lemma_apply_delta_wf(v0, *d);
        }
    }

    /// Takes every complete call, in first-seen order, dropping calls that
    /// never received a name; id bindings, the fresh-index counter and the
    /// last resolved index survive for fragments that may still arrive.
    pub fn flush_calls(&mut self) -> (out: Vec<ToolCallEntry>)
        ensures
            calls_model(out@) =~= named_calls(old(self)@.calls),
            final(self)@.calls =~= Seq::<EntryModel>::empty(),
            final(self)@.id_map =~= old(self)@.id_map,
            final(self)@.next_index == old(self)@.next_index,
            final(self)@.last_index == old(self)@.last_index,
    {
        let ghost orig = self@.calls;
        let mut out: Vec<ToolCallEntry> = Vec::new();
        let mut k: usize = 0;
        let n = self.calls.len();
        proof {
            assert(orig.take(0) =~= Seq::<EntryModel>::empty());
            assert(calls_model(out@) =~= named_calls(orig.take(0)));
        }
        while k < n
            invariant
                n == self.calls@.len(),
                k <= n,
                self@.calls =~= orig,
                orig.len() == n,
                self@.id_map == old(self)@.id_map,
                self@.next_index == old(self)@.next_index,
                self@.last_index == old(self)@.last_index,
                calls_model(out@) =~= named_calls(orig.take(k as int)),
            decreases n - k,
        {
            let ghost out_before = out@;
            if self.calls[k].name.is_some() {
                let entry = clone_entry(&self.calls[k]);
                out.push(entry);
            }
            proof {
                assert(orig.take(k as int + 1).drop_last() =~= orig.take(k as int));
                assert(orig.take(k as int + 1).last() == orig[k as int]);
                assert(orig[k as int] == entry_model(self.calls@[k as int]));
                assert(named_calls(orig.take(k as int + 1)) =~= (if is_named(orig[k as int]) {
                    named_calls(orig.take(k as int)).push(orig[k as int])
                } else {
                    named_calls(orig.take(k as int))
                }));
                if self.calls@[k as int].name is Some {
                    assert(calls_model(out@) =~= calls_model(out_before).push(
                        entry_model(self.calls@[k as int]),
                    ));
                } else {
                    assert(out@ == out_before);
                }
            }
            k = k + 1;
        }
        self.calls = Vec::new();
        proof {
            assert(orig.take(n as int) =~= orig);
            assert(self@.calls =~= Seq::<EntryModel>::empty());
        }
        out
    }
}

/// The first non-empty name carried by a delta sequence, if any.
pub open spec fn first_nonempty_name(ds: Seq<ToolCallDelta>) -> Option<Seq<char>>
    decreases ds.len(),
{
    if ds.len() == 0 {
        None
    } else if ds[0].name is Some && ds[0].name.unwrap()@.len() > 0 {
        Some(ds[0].name.unwrap()@)
    } else {
        first_nonempty_name(ds.skip(1))
    }
}

/// Folding fragments that all carry the same index (and no id) onto an
/// existing call leaves every other call untouched, appends the argument
/// fragments in arrival order, and gives the name its first non-empty value.
proof fn lemma_index_only_fold(v: AccumView, ds: Seq<ToolCallDelta>, idx: usize, p: int)
    requires
        accum_wf(v),
        find_call(v.calls, idx) == Some(p),
        forall|i: int|
            0 <= i < ds.len() ==> (#[trigger] ds[i]).index == Some(idx) && ds[i].id is None,
    ensures
        ({
            let w = apply_deltas_spec(v, ds);
            &&& accum_wf(w)
            &&& w.calls.len() == v.calls.len()
            &&& find_call(w.calls, idx) == Some(p)
            &&& w.calls[p].index == v.calls[p].index
            &&& w.calls[p].arguments =~= v.calls[p].arguments + fragments_concat(ds)
            &&& w.calls[p].name == (if v.calls[p].name is Some {
                v.calls[p].name
            } else {
                first_nonempty_name(ds)
            })
        }),
    decreases ds.len(),
{
    lemma_find_call_props(v.calls, idx);
    if ds.len() == 0 {
        assert(v.calls[p].arguments + fragments_concat(ds) =~= v.calls[p].arguments);
    } else {
        let d = ds[0];
        let v1 = apply_delta_spec(v, d);
        assert(resolved_index(v, d) == idx as int);
        lemma_apply_delta_wf(v, d);
        assert(v1.calls =~= v.calls.update(p, merged_entry(v.calls[p], d)));
        assert forall|k: int| 0 <= k < p implies v1.calls[k].index != idx by {
            assert(v1.calls[k] == v.calls[k]);
        }
        lemma_find_call_is(v1.calls, idx, p);
        assert forall|i: int|
            0 <= i < ds.skip(1).len() implies (#[trigger] ds.skip(1)[i]).index == Some(idx)
            && ds.skip(1)[i].id is None by {
            assert(ds.skip(1)[i] == ds[i + 1]);
        }
        lemma_index_only_fold(v1, ds.skip(1), idx, p);
        let w = apply_deltas_spec(v, ds);
        assert(w == apply_deltas_spec(v1, ds.skip(1)));
        assert(v1.calls[p] == merged_entry(v.calls[p], d));
        assert(w.calls[p].arguments =~= v1.calls[p].arguments + fragments_concat(ds.skip(1)));
        assert(v.calls[p].arguments + fragments_concat(ds) =~= (v.calls[p].arguments + (if d
            .arguments is Some {
            d.arguments.unwrap()@
        } else {
            Seq::empty()
        })) + fragments_concat(ds.skip(1)));
    }
}

/// Law: across any number of fragments carrying the same index, the
/// accumulated argument text is exactly the concatenation of the argument
/// fragments in arrival order, in a single call.
pub proof fn lemma_arguments_accumulate(ds: Seq<ToolCallDelta>, idx: usize)
    requires
        ds.len() >= 1,
        forall|i: int|
            0 <= i < ds.len() ==> (#[trigger] ds[i]).index == Some(idx) && ds[i].id is None,
    ensures
        ({
            let w = apply_deltas_spec(empty_accum(), ds);
            &&& w.calls.len() == 1
            &&& w.calls[0].index == idx
            &&& w.calls[0].arguments =~= fragments_concat(ds)
        }),
{
    let d = ds[0];
    let v0 = empty_accum();
    let v1 = apply_delta_spec(v0, d);
    assert(resolved_index(v0, d) == idx as int);
    lemma_find_call_props(v0.calls, idx);
    lemma_apply_delta_wf(v0, d);
    assert(v1.calls =~= v0.calls.push(merged_entry(blank_entry(idx), d)));
    assert(v1.calls[0].index == idx);
    lemma_find_call_is(v1.calls, idx, 0);
    assert forall|i: int|
        0 <= i < ds.skip(1).len() implies (#[trigger] ds.skip(1)[i]).index == Some(idx) && ds.skip(
        1,
    )[i].id is None by {
        assert(ds.skip(1)[i] == ds[i + 1]);
    }
    lemma_index_only_fold(v1, ds.skip(1), idx, 0);
    let w = apply_deltas_spec(v0, ds);
    assert(w == apply_deltas_spec(v1, ds.skip(1)));
    assert(v1.calls[0].arguments =~= (if d.arguments is Some {
        d.arguments.unwrap()@
    } else {
        Seq::empty()
    }));
    assert(w.calls[0].arguments =~= v1.calls[0].arguments + fragments_concat(ds.skip(1)));
}

/// Law: a delta sequence whose id arrives only once, on the first delta, with
/// every later delta carrying only the index, resolves to one single
/// accumulated call, not two.
pub proof fn lemma_id_then_index_single_call(first: ToolCallDelta, rest: Seq<ToolCallDelta>, idx: usize)
    requires
        first.index == Some(idx),
        forall|i: int|
            0 <= i < rest.len() ==> (#[trigger] rest[i]).index == Some(idx) && rest[i].id is None,
    ensures
        ({
            let w = apply_deltas_spec(empty_accum(), seq![first] + rest);
            &&& w.calls.len() == 1
            &&& w.calls[0].index == idx
        }),
{
    let ds = seq![first] + rest;
    assert(ds[0] == first);
    assert(ds.skip(1) =~= rest);
    let v0 = empty_accum();
    let v1 = apply_delta_spec(v0, first);
    assert(resolved_index(v0, first) == idx as int);
    lemma_find_call_props(v0.calls, idx);
    lemma_apply_delta_wf(v0, first);
    assert(v1.calls =~= v0.calls.push(merged_entry(blank_entry(idx), first)));
    assert(v1.calls[0].index == idx);
    lemma_find_call_is(v1.calls, idx, 0);
    lemma_index_only_fold(v1, rest, idx, 0);
    let w = apply_deltas_spec(v0, ds);
    assert(w == apply_deltas_spec(v1, rest));
}

/// Law: a call's name is "first non-empty value wins".  A name that only ever
/// arrives as the empty string is never set, and the call is then dropped at
/// finalisation; a name set once is never overwritten by later empty strings.
pub proof fn lemma_name_resolution(ds: Seq<ToolCallDelta>, idx: usize)
    requires
        ds.len() >= 1,
        forall|i: int|
            0 <= i < ds.len() ==> (#[trigger] ds[i]).index == Some(idx) && ds[i].id is None,
    ensures
        ({
            let w = apply_deltas_spec(empty_accum(), ds);
            &&& w.calls.len() == 1
            &&& w.calls[0].name == first_nonempty_name(ds)
            &&& (first_nonempty_name(ds) is None ==> named_calls(w.calls) =~= Seq::<
                EntryModel,
            >::empty())
            &&& (first_nonempty_name(ds) is Some ==> named_calls(w.calls) =~= seq![w.calls[0]])
        }),
{
    let d = ds[0];
    let v0 = empty_accum();
    let v1 = apply_delta_spec(v0, d);
    assert(resolved_index(v0, d) == idx as int);
    lemma_find_call_props(v0.calls, idx);
    lemma_apply_delta_wf(v0, d);
    assert(v1.calls =~= v0.calls.push(merged_entry(blank_entry(idx), d)));
    assert(v1.calls[0].index == idx);
    lemma_find_call_is(v1.calls, idx, 0);
    assert forall|i: int|
        0 <= i < ds.skip(1).len() implies (#[trigger] ds.skip(1)[i]).index == Some(idx) && ds.skip(
        1,
    )[i].id is None by {
        assert(ds.skip(1)[i] == ds[i + 1]);
    }
    lemma_index_only_fold(v1, ds.skip(1), idx, 0);
    let w = apply_deltas_spec(v0, ds);
    assert(w == apply_deltas_spec(v1, ds.skip(1)));
    assert(v1.calls[0].name == (if d.name is Some && d.name.unwrap()@.len() > 0 {
        Some(d.name.unwrap()@)
    } else {
        None
    }));
    assert(w.calls[0].name == first_nonempty_name(ds));
    assert(w.calls.drop_last() =~= Seq::<EntryModel>::empty());
    assert(w.calls.last() == w.calls[0]);
    assert(named_calls(Seq::<EntryModel>::empty()) =~= Seq::<EntryModel>::empty());
    assert(named_calls(w.calls.drop_last()) =~= Seq::<EntryModel>::empty());
    if is_named(w.calls[0]) {
        assert(named_calls(w.calls) =~= Seq::<EntryModel>::empty() + seq![w.calls[0]]);
    } else {
        assert(named_calls(w.calls) =~= Seq::<EntryModel>::empty() + Seq::<EntryModel>::empty());
    }
}

/// One fragment merged into one owned entry.
fn merge_entry(e: ToolCallEntry, d: &ToolCallDelta) -> (r: ToolCallEntry)
    ensures
        entry_model(r) == merged_entry(entry_model(e), *d),
{
    let id = if e.id.is_none() && d.id.is_some() {
        match &d.id {
            Some(s) => Some(s.clone()),
            None => None,
        }
    } else {
        e.id
    };
    let set_name = e.name.is_none() && match &d.name {
        Some(s) => !s.as_str().is_empty(),
        None => false,
    };
    let name = if set_name {
        match &d.name {
            Some(s) => Some(s.clone()),
            None => None,
        }
    } else {
        e.name
    };
    let mut arguments = e.arguments;
    if let Some(a) = &d.arguments {
        arguments.append(a.as_str());
    }
    let r = ToolCallEntry { index: e.index, id, name, arguments };
    proof {
        assert(entry_model(r).index == merged_entry(entry_model(e), *d).index);
        assert(entry_model(r).id == merged_entry(entry_model(e), *d).id);
        assert(entry_model(r).name == merged_entry(entry_model(e), *d).name);
        assert(entry_model(r).arguments =~= merged_entry(entry_model(e), *d).arguments);
    }
    r
}

/// Every finalised call has a name.
pub proof fn lemma_named_calls_all_named(s: Seq<EntryModel>)
    ensures
        forall|i: int| 0 <= i < named_calls(s).len() ==> is_named(#[trigger] named_calls(s)[i]),
    decreases s.len(),
{
    if s.len() > 0 {
        lemma_named_calls_all_named(s.drop_last());
        let pre = named_calls(s.drop_last());
        assert forall|i: int|
            0 <= i < named_calls(s).len() implies is_named(named_calls(s)[i]) by {
            if i < pre.len() {
                assert(named_calls(s)[i] == pre[i]);
            } else {
                assert(is_named(s.last()));
                assert(named_calls(s)[i] == s.last());
            }
        }
    }
}

/// A field-by-field copy of an entry.
pub(crate) fn clone_entry(e: &ToolCallEntry) -> (r: ToolCallEntry)
    ensures
        entry_model(*e) == entry_model(r),
{
    ToolCallEntry {
        index: e.index,
        id: match &e.id {
            Some(s) => Some(s.clone()),
            None => None,
        },
        name: match &e.name {
            Some(s) => Some(s.clone()),
            None => None,
        },
        arguments: e.arguments.clone(),
    }
}

} // verus!
