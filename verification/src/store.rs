//! The store: one explicitly constructed value owning the scriptlet table,
//! the tool table, the links between them and the search index.
//!
//! Every operation either completes or leaves the store untouched; the
//! index is kept in lockstep with the scriptlet table by construction: the
//! standing invariant [`StoreView::inv`] ties one index entry to each live
//! scriptlet row, and every method both requires and preserves it.
//!
//! Rows are kept in insertion order; ids grow with time, so "newest first"
//! is the reverse of table order.

use vstd::prelude::*;

use crate::data_types::{scriptlet_views, ScriptletData, ScriptletView, ToolData};
use crate::error::DocuError;
use crate::search::{
    entry_of, entry_tokens, hits, match_scriptlets, query_tokens, sorted_by_rank, EntryView,
    IndexEntry,
};

verus! {

/// One row of the tool table.
#[derive(Debug)]
pub struct ToolRow {
    pub id: i64,
    pub name: String,
}

/// The mathematical content of a tool row.
pub struct ToolRowView {
    pub id: int,
    pub name: Seq<char>,
}

impl View for ToolRow {
    type V = ToolRowView;

    open spec fn view(&self) -> ToolRowView {
        ToolRowView { id: self.id as int, name: self.name@ }
    }
}

impl Clone for ToolRow {
    fn clone(&self) -> (r: Self)
        ensures
            r@ == self@,
    {
        ToolRow { id: self.id, name: self.name.clone() }
    }
}

/// One row of the link table: at most one per (tool, scriptlet) pair.
#[derive(Clone, Copy, PartialEq, Eq, Structural, Debug)]
pub struct LinkRow {
    pub tool_id: i64,
    pub scriptlet_id: i64,
}

/// The views of a sequence of tool rows.
pub open spec fn tool_views(s: Seq<ToolRow>) -> Seq<ToolRowView> {
    s.map_values(|t: ToolRow| t@)
}

/// The views of a sequence of index entries.
pub open spec fn entry_views(s: Seq<IndexEntry>) -> Seq<EntryView> {
    s.map_values(|e: IndexEntry| e@)
}

/// The store: the single owner of the physical data. Construct one with
/// [`Store::new`] or [`Store::from_rows`] and route every operation
/// through it.
pub struct Store {
    pub scriptlets: Vec<ScriptletData>,
    pub tools: Vec<ToolRow>,
    pub links: Vec<LinkRow>,
    pub entries: Vec<IndexEntry>,
    pub next_scriptlet_id: i64,
    pub next_tool_id: i64,
}

/// The mathematical content of the whole store.
pub struct StoreView {
    pub scriptlets: Seq<ScriptletView>,
    pub tools: Seq<ToolRowView>,
    pub links: Seq<LinkRow>,
    pub entries: Seq<EntryView>,
    pub next_scriptlet_id: int,
    pub next_tool_id: int,
}

impl View for Store {
    type V = StoreView;

    open spec fn view(&self) -> StoreView {
        StoreView {
            scriptlets: scriptlet_views(self.scriptlets@),
            tools: tool_views(self.tools@),
            links: self.links@,
            entries: entry_views(self.entries@),
            next_scriptlet_id: self.next_scriptlet_id as int,
            next_tool_id: self.next_tool_id as int,
        }
    }
}

/// Whether some scriptlet carries this name.
pub open spec fn has_name(sv: Seq<ScriptletView>, name: Seq<char>) -> bool {
    exists|i: int| 0 <= i < sv.len() && (#[trigger] sv[i]).name == name
}

/// Whether some scriptlet carries this id.
pub open spec fn has_scriptlet_id(sv: Seq<ScriptletView>, id: int) -> bool {
    exists|i: int| 0 <= i < sv.len() && (#[trigger] sv[i]).id == id
}

/// Whether some tool carries this name.
pub open spec fn has_tool_named(tv: Seq<ToolRowView>, name: Seq<char>) -> bool {
    exists|i: int| 0 <= i < tv.len() && (#[trigger] tv[i]).name == name
}

/// Whether some tool carries this id.
pub open spec fn has_tool_id(tv: Seq<ToolRowView>, id: int) -> bool {
    exists|i: int| 0 <= i < tv.len() && (#[trigger] tv[i]).id == id
}

/// The position of the tool carrying this name (meaningful when one does).
pub open spec fn tool_idx_of(tv: Seq<ToolRowView>, name: Seq<char>) -> int {
    choose|i: int| 0 <= i < tv.len() && (#[trigger] tv[i]).name == name
}

/// The id of the tool carrying this name (meaningful when one does).
pub open spec fn tool_id_of(tv: Seq<ToolRowView>, name: Seq<char>) -> int {
    tv[tool_idx_of(tv, name)].id
}

/// Whether the link table holds this (tool, scriptlet) pair.
pub open spec fn has_link(links: Seq<LinkRow>, tool_id: int, scriptlet_id: int) -> bool {
    exists|i: int|
        0 <= i < links.len() && (#[trigger] links[i]).tool_id == tool_id
            && links[i].scriptlet_id == scriptlet_id
}

/// Well-formedness of the scriptlet table: ids grow along the table (so
/// table order is chronological), every id is positive and below the next
/// free one, and names are unique.
pub open spec fn scriptlets_ok(sv: Seq<ScriptletView>, next: int) -> bool {
    &&& 1 <= next <= i64::MAX
    &&& forall|i: int, j: int|
        0 <= i < j < sv.len() ==> (#[trigger] sv[i]).id < (#[trigger] sv[j]).id
    &&& forall|i: int| 0 <= i < sv.len() ==> 1 <= (#[trigger] sv[i]).id < next
    &&& forall|i: int, j: int|
        0 <= i < j < sv.len() ==> (#[trigger] sv[i]).name != (#[trigger] sv[j]).name
}

/// Well-formedness of the tool table: ids grow, stay below the next free
/// one, and names are unique.
pub open spec fn tools_ok(tv: Seq<ToolRowView>, next: int) -> bool {
    &&& 1 <= next <= i64::MAX
    &&& forall|i: int, j: int|
        0 <= i < j < tv.len() ==> (#[trigger] tv[i]).id < (#[trigger] tv[j]).id
    &&& forall|i: int| 0 <= i < tv.len() ==> 1 <= (#[trigger] tv[i]).id < next
    &&& forall|i: int, j: int|
        0 <= i < j < tv.len() ==> (#[trigger] tv[i]).name != (#[trigger] tv[j]).name
}

/// Well-formedness of the link table: pairs are unique and reference live
/// rows on both sides.
pub open spec fn links_ok(
    links: Seq<LinkRow>,
    tv: Seq<ToolRowView>,
    sv: Seq<ScriptletView>,
) -> bool {
    &&& forall|i: int, j: int|
        0 <= i < j < links.len() ==> #[trigger] links[i] != #[trigger] links[j]
    &&& forall|i: int|
        0 <= i < links.len() ==> has_tool_id(tv, (#[trigger] links[i]).tool_id as int)
            && has_scriptlet_id(sv, links[i].scriptlet_id as int)
}

/// Lockstep of the index with the scriptlet table: exactly one entry per
/// live scriptlet, in table order, carrying its id and the tokens of its
/// text.
pub open spec fn entries_ok(ev: Seq<EntryView>, sv: Seq<ScriptletView>) -> bool {
    &&& ev.len() == sv.len()
    &&& forall|i: int|
        0 <= i < sv.len() ==> (#[trigger] ev[i]).scriptlet_id == sv[i].id && ev[i].tokens
            == entry_tokens(sv[i])
}

impl StoreView {
    /// The standing invariant of the whole store.
    pub open spec fn inv(self) -> bool {
        &&& scriptlets_ok(self.scriptlets, self.next_scriptlet_id)
        &&& tools_ok(self.tools, self.next_tool_id)
        &&& links_ok(self.links, self.tools, self.scriptlets)
        &&& entries_ok(self.entries, self.scriptlets)
    }
}

/// Appending a fresh tool name with the next id keeps the tool table
/// well-formed, keeps every id findable, and gives the new name the new id.
pub proof fn lemma_tools_push(tv: Seq<ToolRowView>, next: int, name: Seq<char>)
    requires
        tools_ok(tv, next),
        next < i64::MAX,
        !has_tool_named(tv, name),
    ensures
        tools_ok(tv.push(ToolRowView { id: next, name }), next + 1),
        has_tool_named(tv.push(ToolRowView { id: next, name }), name),
        tool_id_of(tv.push(ToolRowView { id: next, name }), name) == next,
        forall|id: int|
            #[trigger] has_tool_id(tv, id) ==> has_tool_id(
                tv.push(ToolRowView { id: next, name }),
                id,
            ),
{
    let added = ToolRowView { id: next, name };
    let t2 = tv.push(added);
    let n = tv.len() as int;
    assert(t2[n] == added);
    assert forall|i: int, j: int| 0 <= i < j < t2.len() implies (#[trigger] t2[i]).id < (
    #[trigger] t2[j]).id && t2[i].name != t2[j].name by {
        if j < n {
            assert(t2[i] == tv[i] && t2[j] == tv[j]);
            assert(tv[i].id < tv[j].id && tv[i].name != tv[j].name);
        } else {
            assert(t2[i] == tv[i] && t2[j] == added);
            assert(1 <= tv[i].id < next);
            if tv[i].name == name {
                assert(has_tool_named(tv, name));
            }
        }
    }
    assert forall|i: int| 0 <= i < t2.len() implies 1 <= (#[trigger] t2[i]).id < next + 1 by {
        if i < n {
            assert(t2[i] == tv[i]);
            assert(1 <= tv[i].id < next);
        }
    }
    assert(has_tool_named(t2, name));
    let k = tool_idx_of(t2, name);
    assert(t2[k].name == name);
    if k < n {
        assert(tv[k].name == name);
        assert(has_tool_named(tv, name));
    }
    assert forall|id: int| #[trigger] has_tool_id(tv, id) implies has_tool_id(t2, id) by {
        let t = choose|j: int| 0 <= j < tv.len() && (#[trigger] tv[j]).id == id;
        assert(t2[t] == tv[t]);
    }
}

/// Appending a fresh scriptlet with the next id keeps the scriptlet table
/// well-formed and keeps every stored id findable.
pub proof fn lemma_scriptlets_push(sv: Seq<ScriptletView>, next: int, v: ScriptletView)
    requires
        scriptlets_ok(sv, next),
        next < i64::MAX,
        v.id == next,
        !has_name(sv, v.name),
    ensures
        scriptlets_ok(sv.push(v), next + 1),
        has_scriptlet_id(sv.push(v), next),
        forall|id: int|
            #[trigger] has_scriptlet_id(sv, id) ==> has_scriptlet_id(sv.push(v), id),
{
    let s2 = sv.push(v);
    let n = sv.len() as int;
    assert(s2[n] == v);
    assert forall|i: int, j: int| 0 <= i < j < s2.len() implies (#[trigger] s2[i]).id < (
    #[trigger] s2[j]).id && s2[i].name != s2[j].name by {
        if j < n {
            assert(s2[i] == sv[i] && s2[j] == sv[j]);
            assert(sv[i].id < sv[j].id && sv[i].name != sv[j].name);
        } else {
            assert(s2[i] == sv[i] && s2[j] == v);
            assert(1 <= sv[i].id < next);
            if sv[i].name == v.name {
                assert(has_name(sv, v.name));
            }
        }
    }
    assert forall|i: int| 0 <= i < s2.len() implies 1 <= (#[trigger] s2[i]).id < next + 1 by {
        if i < n {
            assert(s2[i] == sv[i]);
            assert(1 <= sv[i].id < next);
        }
    }
    assert(has_scriptlet_id(s2, next));
    assert forall|id: int| #[trigger] has_scriptlet_id(sv, id) implies has_scriptlet_id(
        s2,
        id,
    ) by {
        let t = choose|j: int| 0 <= j < sv.len() && (#[trigger] sv[j]).id == id;
        assert(s2[t] == sv[t]);
    }
}

/// Filtering keeps every pairwise fact that held between the survivors, and
/// surfaces nothing that was not there.
pub proof fn lemma_filter_keeps<T>(s: Seq<T>, pred: spec_fn(T) -> bool, rel: spec_fn(T, T) -> bool)
    requires
        forall|i: int, j: int| 0 <= i < j < s.len() ==> #[trigger] rel(s[i], s[j]),
    ensures
        forall|i: int, j: int|
            0 <= i < j < s.filter(pred).len() ==> #[trigger] rel(
                s.filter(pred)[i],
                s.filter(pred)[j],
            ),
        forall|i: int| 0 <= i < s.filter(pred).len() ==> s.contains(#[trigger] s.filter(pred)[i]),
    decreases s.len(),
{
    reveal(Seq::filter);
    if s.len() == 0 {
    } else {
        let sub = s.drop_last();
        assert forall|i: int, j: int| 0 <= i < j < sub.len() implies #[trigger] rel(
            sub[i],
            sub[j],
        ) by {
            assert(sub[i] == s[i] && sub[j] == s[j]);
            assert(rel(s[i], s[j]));
        }
        lemma_filter_keeps(sub, pred, rel);
        let f = s.filter(pred);
        let fs = sub.filter(pred);
        assert forall|i: int| 0 <= i < f.len() implies s.contains(#[trigger] f[i]) by {
            if pred(s.last()) && i == f.len() - 1 {
                assert(f[i] == s[s.len() - 1]);
            } else {
                assert(f[i] == fs[i]);
                let k = choose|k: int| 0 <= k < sub.len() && sub[k] == fs[i];
                assert(s[k] == fs[i]);
            }
        }
        assert forall|i: int, j: int| 0 <= i < j < f.len() implies #[trigger] rel(
            f[i],
            f[j],
        ) by {
            if pred(s.last()) && j == f.len() - 1 {
                assert(f[i] == fs[i]);
                assert(f[j] == s[s.len() - 1]);
                let k = choose|k: int| 0 <= k < sub.len() && sub[k] == fs[i];
                assert(rel(s[k], s[s.len() - 1]));
            } else {
                assert(f[i] == fs[i] && f[j] == fs[j]);
                assert(rel(fs[i], fs[j]));
            }
        }
    }
}

/// Whether `id` occurs among the given ids.
pub open spec fn id_in(ids: Seq<i64>, id: int) -> bool {
    exists|i: int| 0 <= i < ids.len() && (#[trigger] ids[i]) as int == id
}

/// The scriptlets that survive removing the given ids.
pub open spec fn kept_scriptlets(sv: Seq<ScriptletView>, ids: Seq<i64>) -> Seq<ScriptletView> {
    sv.filter(|v: ScriptletView| !id_in(ids, v.id))
}

/// The links that survive removing the given scriptlet ids.
pub open spec fn kept_links(links: Seq<LinkRow>, ids: Seq<i64>) -> Seq<LinkRow> {
    links.filter(|l: LinkRow| !id_in(ids, l.scriptlet_id as int))
}

/// Membership test over an id list.
fn id_in_vec(ids: &Vec<i64>, id: i64) -> (r: bool)
    ensures
        r == id_in(ids@, id as int),
{
    let mut i: usize = 0;
    while i < ids.len()
        invariant
            0 <= i <= ids@.len(),
            forall|j: int| 0 <= j < i ==> (#[trigger] ids@[j]) != id,
        decreases ids.len() - i,
    {
        if ids[i] == id {
            return true;
        }
        i += 1;
    }
    proof {
        if id_in(ids@, id as int) {
            let k = choose|k: int| 0 <= k < ids@.len() && (#[trigger] ids@[k]) as int == id as int;
            assert(ids@[k] != id);
        }
    }
    false
}

/// A tool row's own name resolves to that row's id, given unique names.
pub proof fn lemma_tool_id_at(tv: Seq<ToolRowView>, i: int)
    requires
        forall|a: int, b: int|
            0 <= a < b < tv.len() ==> (#[trigger] tv[a]).name != (#[trigger] tv[b]).name,
        0 <= i < tv.len(),
    ensures
        has_tool_named(tv, tv[i].name),
        tool_id_of(tv, tv[i].name) == tv[i].id,
{
    assert(has_tool_named(tv, tv[i].name));
    let k = tool_idx_of(tv, tv[i].name);
    assert(tv[k].name == tv[i].name);
    if k < i {
        assert(tv[k].name != tv[i].name);
    } else if k > i {
        assert(tv[i].name != tv[k].name);
    }
}

/// Get-or-create one tool by name: an existing row is reused, a missing
/// one is appended with the next id.
pub open spec fn upsert_tool(tv: Seq<ToolRowView>, next: int, name: Seq<char>) -> (
    Seq<ToolRowView>,
    int,
) {
    if has_tool_named(tv, name) {
        (tv, next)
    } else {
        (tv.push(ToolRowView { id: next, name }), next + 1)
    }
}

/// Record one link, ignoring the insert when the pair already exists.
pub open spec fn insert_link(links: Seq<LinkRow>, l: LinkRow) -> Seq<LinkRow> {
    if links.contains(l) {
        links
    } else {
        links.push(l)
    }
}

/// What one referenced tool name does to the tool and link tables during an
/// insert: get-or-create the tool, then link it to the new scriptlet.
pub open spec fn apply_tool(
    tv: Seq<ToolRowView>,
    next: int,
    links: Seq<LinkRow>,
    name: Seq<char>,
    sid: int,
) -> (Seq<ToolRowView>, int, Seq<LinkRow>) {
    let (tv1, next1) = upsert_tool(tv, next, name);
    let l = LinkRow { tool_id: tool_id_of(tv1, name) as i64, scriptlet_id: sid as i64 };
    (tv1, next1, insert_link(links, l))
}

/// What the whole referenced-tool list does to the tool and link tables,
/// processed in order.
pub open spec fn apply_tools(
    tv: Seq<ToolRowView>,
    next: int,
    links: Seq<LinkRow>,
    names: Seq<Seq<char>>,
    sid: int,
) -> (Seq<ToolRowView>, int, Seq<LinkRow>)
    decreases names.len(),
{
    if names.len() == 0 {
        (tv, next, links)
    } else {
        let (tv1, next1, links1) = apply_tool(tv, next, links, names[0], sid);
        apply_tools(tv1, next1, links1, names.drop_first(), sid)
    }
}

pub proof fn lemma_apply_tools_push(
    tv: Seq<ToolRowView>,
    next: int,
    links: Seq<LinkRow>,
    names: Seq<Seq<char>>,
    name: Seq<char>,
    sid: int,
)
    ensures
        apply_tools(tv, next, links, names.push(name), sid) == {
            let (tv1, next1, links1) = apply_tools(tv, next, links, names, sid);
            apply_tool(tv1, next1, links1, name, sid)
        },
    decreases names.len(),
{
    let s1 = names.push(name);
    if names.len() == 0 {
        assert(s1[0] == name);
        assert(s1.drop_first() =~= Seq::<Seq<char>>::empty());
        let (a, b, c) = apply_tool(tv, next, links, name, sid);
        assert(apply_tools(a, b, c, s1.drop_first(), sid) == (a, b, c));
        assert(apply_tools(tv, next, links, names, sid) == (tv, next, links));
    } else {
        let (tv1, next1, links1) = apply_tool(tv, next, links, names[0], sid);
        lemma_apply_tools_push(tv1, next1, links1, names.drop_first(), name, sid);
        assert(s1[0] == names[0]);
        assert(s1.drop_first() =~= names.drop_first().push(name));
        assert(apply_tools(tv, next, links, s1, sid) == apply_tools(
            tv1,
            next1,
            links1,
            s1.drop_first(),
            sid,
        ));
        assert(apply_tools(tv, next, links, names, sid) == apply_tools(
            tv1,
            next1,
            links1,
            names.drop_first(),
            sid,
        ));
    }
}

/// The names of a vector of borrowed strings.
pub open spec fn name_views(ts: Seq<&str>) -> Seq<Seq<char>> {
    ts.map_values(|t: &str| t@)
}

/// Membership test on the link table.
fn links_contain(links: &Vec<LinkRow>, l: LinkRow) -> (r: bool)
    ensures
        r == links@.contains(l),
{
    let mut i: usize = 0;
    while i < links.len()
        invariant
            0 <= i <= links@.len(),
            forall|j: int| 0 <= j < i ==> links@[j] != l,
        decreases links.len() - i,
    {
        if links[i] == l {
            return true;
        }
        i += 1;
    }
    false
}

impl Store {
    /// An empty store.
    pub fn new() -> (s: Store)
        ensures
            s@.inv(),
            s@.scriptlets.len() == 0,
            s@.tools.len() == 0,
            s@.links.len() == 0,
            s@.entries.len() == 0,
            s@.next_scriptlet_id == 1,
            s@.next_tool_id == 1,
    {
        Store {
            scriptlets: Vec::new(),
            tools: Vec::new(),
            links: Vec::new(),
            entries: Vec::new(),
            next_scriptlet_id: 1,
            next_tool_id: 1,
        }
    }

    /// Whether some stored scriptlet carries this name.
    fn has_scriptlet_named(&self, name: &str) -> (r: bool)
        ensures
            r == has_name(self@.scriptlets, name@),
    {
        let mut i: usize = 0;
        while i < self.scriptlets.len()
            invariant
                0 <= i <= self@.scriptlets.len(),
                forall|j: int| 0 <= j < i ==> (#[trigger] self@.scriptlets[j]).name != name@,
            decreases self.scriptlets.len() - i,
        {
            if crate::text::str_eq(self.scriptlets[i].name.as_str(), name) {
                proof {
                    assert(self@.scriptlets[i as int].name == name@);
                }
                return true;
            }
            i += 1;
        }
        false
    }

    /// The id of the tool carrying this name, if it exists.
    fn find_tool_id(&self, name: &str) -> (r: Option<i64>)
        requires
            self@.inv(),
        ensures
            match r {
                Some(id) => has_tool_named(self@.tools, name@) && id as int == tool_id_of(
                    self@.tools,
                    name@,
                ),
                None => !has_tool_named(self@.tools, name@),
            },
    {
        let ghost tv = self@.tools;
        let mut i: usize = 0;
        while i < self.tools.len()
            invariant
                0 <= i <= tv.len(),
                tv == self@.tools,
                self@.inv(),
                forall|j: int| 0 <= j < i ==> (#[trigger] tv[j]).name != name@,
            decreases self.tools.len() - i,
        {
            if crate::text::str_eq(self.tools[i].name.as_str(), name) {
                proof {
                    assert(self@.tools[i as int].name == name@);
                    lemma_tool_id_at(self@.tools, i as int);
                }
                return Some(self.tools[i].id);
            }
            i += 1;
        }
        None
    }

    /// Get-or-create over the tool table: a single lookup by unique name,
    /// inserting on a miss. Never creates a second row for the same name.
    fn add_or_get_tool(&mut self, name: &str) -> (tid: i64)
        requires
            old(self)@.inv(),
            old(self)@.next_tool_id < i64::MAX,
        ensures
            final(self)@.inv(),
            (final(self)@.tools, final(self)@.next_tool_id) == upsert_tool(
                old(self)@.tools,
                old(self)@.next_tool_id,
                name@,
            ),
            has_tool_named(final(self)@.tools, name@),
            tid as int == tool_id_of(final(self)@.tools, name@),
            final(self)@.scriptlets == old(self)@.scriptlets,
            final(self)@.links == old(self)@.links,
            final(self)@.entries == old(self)@.entries,
            final(self)@.next_scriptlet_id == old(self)@.next_scriptlet_id,
    {
        match self.find_tool_id(name) {
            Some(id) => id,
            None => {
                let id = self.next_tool_id;
                let row = ToolRow { id, name: name.to_owned() };
                self.tools.push(row);
                self.next_tool_id = id + 1;
                proof {
                    let added = ToolRowView { id: id as int, name: name@ };
                    assert(self@.tools =~= old(self)@.tools.push(added));
                    lemma_tools_push(old(self)@.tools, id as int, name@);
                    assert forall|i: int|
                        0 <= i < self@.links.len() implies has_tool_id(
                        self@.tools,
                        (#[trigger] self@.links[i]).tool_id as int,
                    ) && has_scriptlet_id(
                        self@.scriptlets,
                        self@.links[i].scriptlet_id as int,
                    ) by {
                        assert(self@.links[i] == old(self)@.links[i]);
                        assert(has_tool_id(
                            old(self)@.tools,
                            (old(self)@.links[i]).tool_id as int,
                        ) && has_scriptlet_id(
                            old(self)@.scriptlets,
                            old(self)@.links[i].scriptlet_id as int,
                        ));
                    }
                }
                id
            },
        }
    }

    /// Record a link between a tool and a scriptlet, ignoring the insert if
    /// the pair already exists: linking is repeatable with no effect.
    fn link_scriptlet_to_tool(&mut self, tool_id: i64, scriptlet_id: i64)
        requires
            old(self)@.inv(),
            has_tool_id(old(self)@.tools, tool_id as int),
            has_scriptlet_id(old(self)@.scriptlets, scriptlet_id as int),
        ensures
            final(self)@.inv(),
            final(self)@.links == insert_link(
                old(self)@.links,
                LinkRow { tool_id, scriptlet_id },
            ),
            final(self)@.scriptlets == old(self)@.scriptlets,
            final(self)@.tools == old(self)@.tools,
            final(self)@.entries == old(self)@.entries,
            final(self)@.next_scriptlet_id == old(self)@.next_scriptlet_id,
            final(self)@.next_tool_id == old(self)@.next_tool_id,
    {
        let l = LinkRow { tool_id, scriptlet_id };
        if !links_contain(&self.links, l) {
            self.links.push(l);
            proof {
                let ls = self@.links;
                let l0 = old(self)@.links;
                assert forall|i: int, j: int| 0 <= i < j < ls.len() implies #[trigger] ls[i]
                    != #[trigger] ls[j] by {
                    if j == ls.len() - 1 {
                        assert(!l0.contains(l));
                        assert(l0[i] == ls[i]);
                        if ls[i] == l {
                            assert(l0.contains(l));
                        }
                    }
                }
            }
        } else {
            proof {
                assert(self@.links =~= insert_link(old(self)@.links, l));
            }
        }
    }

    /// Add one scriptlet as a single atomic unit: insert the scriptlet row
    /// and its index entry, then get-or-create every referenced tool and
    /// link it to the new row.
    ///
    /// A duplicate name is a [`DocuError::Conflict`]; an exhausted id space
    /// is a [`DocuError::StorageUnavailable`]; both leave the store
    /// untouched. On success the new row carries the next free id, and the
    /// tool and link tables evolve exactly by [`apply_tools`] over the
    /// given names in order.
    pub fn add_scriptlet(
        &mut self,
        title: &str,
        tools: Vec<&str>,
        command: &str,
        description: &str,
    ) -> (r: Result<(), DocuError>)
        requires
            old(self)@.inv(),
        ensures
            final(self)@.inv(),
            ({
                let can_insert = !has_name(old(self)@.scriptlets, title@);
                let can_allocate = old(self)@.next_scriptlet_id < i64::MAX && tools@.len()
                    <= i64::MAX - old(self)@.next_tool_id;
                let added = ScriptletView {
                    id: old(self)@.next_scriptlet_id,
                    name: title@,
                    command: command@,
                    description: description@,
                };
                match r {
                    Ok(_) => can_insert && can_allocate && final(self)@.scriptlets == old(
                        self,
                    )@.scriptlets.push(added) && final(self)@.next_scriptlet_id == old(
                        self,
                    )@.next_scriptlet_id + 1 && (
                    final(self)@.tools,
                    final(self)@.next_tool_id,
                    final(self)@.links,
                    ) == apply_tools(
                        old(self)@.tools,
                        old(self)@.next_tool_id,
                        old(self)@.links,
                        name_views(tools@),
                        old(self)@.next_scriptlet_id,
                    ),
                    Err(e) => final(self)@ == old(self)@ && ((e is Conflict && !can_insert) || (
                    e is StorageUnavailable && can_insert && !can_allocate)),
                }
            }),
    {
        if self.has_scriptlet_named(title) {
            return Err(DocuError::Conflict);
        }
        if self.next_scriptlet_id == i64::MAX {
            return Err(DocuError::StorageUnavailable);
        }
        if tools.len() as u64 > (i64::MAX - self.next_tool_id) as u64 {
            return Err(DocuError::StorageUnavailable);
        }
        let sid = self.next_scriptlet_id;
        let row = ScriptletData {
            id: sid,
            name: title.to_owned(),
            command: command.to_owned(),
            description: description.to_owned(),
        };
        let entry = entry_of(&row);
        let ghost added = row@;
        self.scriptlets.push(row);
        self.entries.push(entry);
        self.next_scriptlet_id = sid + 1;
        proof {
            assert(self@.scriptlets =~= old(self)@.scriptlets.push(added));
            assert(self@.entries =~= old(self)@.entries.push(entry@));
            lemma_scriptlets_push(old(self)@.scriptlets, sid as int, added);
            assert forall|i: int|
                0 <= i < self@.scriptlets.len() implies (#[trigger] self@.entries[i]).scriptlet_id
                == self@.scriptlets[i].id && self@.entries[i].tokens == entry_tokens(
                self@.scriptlets[i],
            ) by {
                if i < old(self)@.scriptlets.len() {
                    assert(self@.entries[i] == old(self)@.entries[i]);
                    assert(self@.scriptlets[i] == old(self)@.scriptlets[i]);
                    assert((#[trigger] old(self)@.entries[i]).scriptlet_id == old(
                        self,
                    )@.scriptlets[i].id && old(self)@.entries[i].tokens == entry_tokens(
                        old(self)@.scriptlets[i],
                    ));
                }
            }
            assert forall|i: int|
                0 <= i < self@.links.len() implies has_tool_id(
                self@.tools,
                (#[trigger] self@.links[i]).tool_id as int,
            ) && has_scriptlet_id(self@.scriptlets, self@.links[i].scriptlet_id as int) by {
                assert(self@.links[i] == old(self)@.links[i]);
                assert(has_tool_id(old(self)@.tools, (old(self)@.links[i]).tool_id as int)
                    && has_scriptlet_id(
                    old(self)@.scriptlets,
                    old(self)@.links[i].scriptlet_id as int,
                ));
                assert(has_scriptlet_id(
                    old(self)@.scriptlets.push(added),
                    self@.links[i].scriptlet_id as int,
                ));
            }
        }
        let ghost tools0 = self@.tools;
        let ghost next_tool0 = self@.next_tool_id;
        let ghost links0 = self@.links;
        let ghost names = name_views(tools@);
        let ghost state1 = self@;
        let mut i: usize = 0;
        proof {
            assert(names.take(0) =~= Seq::<Seq<char>>::empty());
        }
        let n = tools.len();
        while i < n
            invariant
                0 <= i <= n == tools@.len(),
                self@.inv(),
                names == name_views(tools@),
                self@.scriptlets == state1.scriptlets,
                self@.entries == state1.entries,
                self@.next_scriptlet_id == state1.next_scriptlet_id,
                1 <= sid < i64::MAX,
                has_scriptlet_id(self@.scriptlets, sid as int),
                i64::MAX - self@.next_tool_id >= names.len() - i,
                (self@.tools, self@.next_tool_id, self@.links) == apply_tools(
                    tools0,
                    next_tool0,
                    links0,
                    names.take(i as int),
                    sid as int,
                ),
            decreases n - i,
        {
            let ghost tools_i = self@.tools;
            let ghost next_i = self@.next_tool_id;
            let ghost links_i = self@.links;
            let name = tools[i];
            let tid = self.add_or_get_tool(name);
            proof {
                let k = tool_idx_of(self@.tools, name@);
                assert(self@.tools[k].name == name@);
                assert(self@.tools[k].id == tid as int);
                assert(has_tool_id(self@.tools, tid as int));
            }
            self.link_scriptlet_to_tool(tid, sid);
            proof {
                lemma_apply_tools_push(
                    tools0,
                    next_tool0,
                    links0,
                    names.take(i as int),
                    names[i as int],
                    sid as int,
                );
                assert(names.take(i as int).push(names[i as int]) =~= names.take(i as int + 1));
                assert((self@.tools, self@.next_tool_id, self@.links) == apply_tool(
                    tools_i,
                    next_i,
                    links_i,
                    names[i as int],
                    sid as int,
                ));
            }
            i += 1;
        }
        proof {
            assert(names.take(names.len() as int) =~= names);
        }
        Ok(())
    }

    /// Remove the given scriptlet ids, their index entries and their links,
    /// all in one unit. Removing an id that does not exist is not an error,
    /// and removing the same ids twice has no further effect.
    pub fn remove_scriptlets(&mut self, ids: &Vec<i64>) -> (r: Result<(), DocuError>)
        requires
            old(self)@.inv(),
        ensures
            final(self)@.inv(),
            r is Ok,
            final(self)@.scriptlets == kept_scriptlets(old(self)@.scriptlets, ids@),
            final(self)@.links == kept_links(old(self)@.links, ids@),
            final(self)@.tools == old(self)@.tools,
            final(self)@.next_scriptlet_id == old(self)@.next_scriptlet_id,
            final(self)@.next_tool_id == old(self)@.next_tool_id,
    {
        broadcast use vstd::seq_lib::group_seq_properties;

        let ghost sv = self@.scriptlets;
        let ghost spred = |v: ScriptletView| !id_in(ids@, v.id);
        let mut new_s: Vec<ScriptletData> = Vec::new();
        let mut new_e: Vec<IndexEntry> = Vec::new();
        let mut i: usize = 0;
        proof {
            assert(sv.take(0) =~= Seq::<ScriptletView>::empty());
            assert(Seq::<ScriptletView>::empty().filter(spred) =~= Seq::<
                ScriptletView,
            >::empty());
        }
        while i < self.scriptlets.len()
            invariant
                0 <= i <= self@.scriptlets.len(),
                self@.inv(),
                sv == self@.scriptlets,
                spred == (|v: ScriptletView| !id_in(ids@, v.id)),
                scriptlet_views(new_s@) == sv.take(i as int).filter(spred),
                new_e@.len() == new_s@.len(),
                forall|m: int|
                    0 <= m < new_e@.len() ==> (#[trigger] new_e@[m])@.scriptlet_id == new_s@[m]@.id
                        && new_e@[m]@.tokens == entry_tokens(new_s@[m]@),
            decreases self.scriptlets.len() - i,
        {
            let keep = !id_in_vec(ids, self.scriptlets[i].id);
            let ghost before = scriptlet_views(new_s@);
            if keep {
                new_s.push(self.scriptlets[i].clone());
                new_e.push(self.entries[i].clone());
                proof {
                    assert(scriptlet_views(new_s@) =~= before.push(sv[i as int]));
                    assert(new_s@[new_s@.len() - 1]@ == sv[i as int]);
                    assert(self@.entries[i as int].scriptlet_id == sv[i as int].id
                        && self@.entries[i as int].tokens == entry_tokens(sv[i as int]));
                    assert(new_e@[new_e@.len() - 1]@ == self@.entries[i as int]);
                }
            }
            proof {
                assert(sv.take(i as int).push(sv[i as int]) =~= sv.take(i as int + 1));
                sv.take(i as int).lemma_filter_push(sv[i as int], spred);
            }
            i += 1;
        }
        let ghost links0 = self@.links;
        let ghost lpred = |l: LinkRow| !id_in(ids@, l.scriptlet_id as int);
        let mut new_l: Vec<LinkRow> = Vec::new();
        let mut k: usize = 0;
        proof {
            assert(links0.take(0) =~= Seq::<LinkRow>::empty());
            assert(Seq::<LinkRow>::empty().filter(lpred) =~= Seq::<LinkRow>::empty());
        }
        while k < self.links.len()
            invariant
                0 <= k <= self@.links.len(),
                links0 == self@.links,
                lpred == (|l: LinkRow| !id_in(ids@, l.scriptlet_id as int)),
                new_l@ == links0.take(k as int).filter(lpred),
            decreases self.links.len() - k,
        {
            let l = self.links[k];
            if !id_in_vec(ids, l.scriptlet_id) {
                new_l.push(l);
            }
            proof {
                assert(links0.take(k as int).push(links0[k as int]) =~= links0.take(k as int + 1));
                links0.take(k as int).lemma_filter_push(links0[k as int], lpred);
            }
            k += 1;
        }
        proof {
            assert(sv.take(sv.len() as int) =~= sv);
            assert(links0.take(links0.len() as int) =~= links0);
        }
        let ghost saved_e = new_e@;
        let ghost saved_s = new_s@;
        self.scriptlets = new_s;
        self.entries = new_e;
        self.links = new_l;
        proof {
            let nv = self@.scriptlets;
            let srel = |a: ScriptletView, b: ScriptletView| a.id < b.id && a.name != b.name;
            assert(nv == sv.filter(spred));
            lemma_filter_keeps(sv, spred, srel);
            assert forall|a: int, b: int| 0 <= a < b < nv.len() implies (#[trigger] nv[a]).id < (
            #[trigger] nv[b]).id && nv[a].name != nv[b].name by {
                assert(srel(sv.filter(spred)[a], sv.filter(spred)[b]));
            }
            assert forall|a: int|
                0 <= a < nv.len() implies 1 <= (#[trigger] nv[a]).id
                < self@.next_scriptlet_id by {
                assert(sv.contains(sv.filter(spred)[a]));
                let t = choose|t: int| 0 <= t < sv.len() && sv[t] == nv[a];
                assert(1 <= sv[t].id < old(self)@.next_scriptlet_id);
            }
            let lrel = |a: LinkRow, b: LinkRow| a != b;
            lemma_filter_keeps(links0, lpred, lrel);
            assert forall|a: int, b: int|
                0 <= a < b < self@.links.len() implies #[trigger] self@.links[a]
                != #[trigger] self@.links[b] by {
                assert(lrel(links0.filter(lpred)[a], links0.filter(lpred)[b]));
            }
            sv.filter_lemma(spred);
            links0.filter_lemma(lpred);
            assert forall|a: int|
                0 <= a < self@.links.len() implies has_tool_id(
                self@.tools,
                (#[trigger] self@.links[a]).tool_id as int,
            ) && has_scriptlet_id(self@.scriptlets, self@.links[a].scriptlet_id as int) by {
                let la = self@.links[a];
                assert(links0.contains(la));
                let t = choose|t: int| 0 <= t < links0.len() && links0[t] == la;
                assert(has_tool_id(old(self)@.tools, (#[trigger] links0[t]).tool_id as int)
                    && has_scriptlet_id(sv, links0[t].scriptlet_id as int));
                assert(lpred(la));
                let w = choose|w: int|
                    0 <= w < sv.len() && (#[trigger] sv[w]).id == la.scriptlet_id as int;
                assert(spred(sv[w]));
                assert(sv.filter(spred).contains(sv[w]));
                let u = choose|u: int| 0 <= u < nv.len() && nv[u] == sv[w];
                assert(nv[u].id == la.scriptlet_id as int);
                assert(has_scriptlet_id(nv, la.scriptlet_id as int));
            }
            assert forall|m: int|
                0 <= m < self@.scriptlets.len() implies (#[trigger] self@.entries[m]).scriptlet_id
                == self@.scriptlets[m].id && self@.entries[m].tokens == entry_tokens(
                self@.scriptlets[m],
            ) by {
                assert(self@.entries[m] == saved_e[m]@);
                assert(self@.scriptlets[m] == saved_s[m]@);
                assert(saved_e[m]@.scriptlet_id == saved_s[m]@.id && saved_e[m]@.tokens
                    == entry_tokens(saved_s[m]@));
            }
        }
        Ok(())
    }

    /// Every stored scriptlet, newest first.
    pub fn get_all_scriptlets(&self) -> (r: Result<Vec<ScriptletData>, DocuError>)
        ensures
            r is Ok,
            match r {
                Ok(out) => scriptlet_views(out@) == self@.scriptlets.reverse(),
                Err(_) => false,
            },
    {
        let n = self.scriptlets.len();
        let mut out: Vec<ScriptletData> = Vec::new();
        let mut i: usize = 0;
        while i < n
            invariant
                0 <= i <= n == self@.scriptlets.len(),
                out@.len() == i,
                forall|j: int|
                    0 <= j < i ==> (#[trigger] out@[j])@ == self@.scriptlets[n - 1 - j],
            decreases n - i,
        {
            out.push(self.scriptlets[n - 1 - i].clone());
            i += 1;
        }
        proof {
            assert(scriptlet_views(out@) =~= self@.scriptlets.reverse());
        }
        Ok(out)
    }

    /// Whether the link table holds this pair.
    fn has_link_exec(&self, tool_id: i64, scriptlet_id: i64) -> (r: bool)
        ensures
            r == has_link(self@.links, tool_id as int, scriptlet_id as int),
    {
        let mut i: usize = 0;
        while i < self.links.len()
            invariant
                0 <= i <= self@.links.len(),
                forall|j: int|
                    0 <= j < i ==> !((#[trigger] self@.links[j]).tool_id == tool_id as int
                        && self@.links[j].scriptlet_id == scriptlet_id as int),
            decreases self.links.len() - i,
        {
            let l = self.links[i];
            if l.tool_id == tool_id && l.scriptlet_id == scriptlet_id {
                return true;
            }
            i += 1;
        }
        false
    }

    /// The scriptlets linked to the named tool, newest first.
    ///
    /// A name with no tool row is reported as [`DocuError::NotFound`],
    /// distinctly from a tool that exists with zero scriptlets.
    pub fn get_scriptlets_for_tool(&self, tool_name: &str) -> (r: Result<
        Vec<ScriptletData>,
        DocuError,
    >)
        requires
            self@.inv(),
        ensures
            match r {
                Ok(out) => has_tool_named(self@.tools, tool_name@) && scriptlet_views(out@)
                    == linked_scriptlets(self@, tool_id_of(self@.tools, tool_name@)).reverse(),
                Err(e) => e is NotFound && !has_tool_named(self@.tools, tool_name@),
            },
    {
        broadcast use vstd::seq_lib::group_seq_properties;

        let tid = match self.find_tool_id(tool_name) {
            None => {
                return Err(DocuError::NotFound);
            },
            Some(tid) => tid,
        };
        let ghost sv = self@.scriptlets;
        let ghost pred = |v: ScriptletView| has_link(self@.links, tid as int, v.id);
        let mut fwd: Vec<ScriptletData> = Vec::new();
        let mut i: usize = 0;
        proof {
            assert(sv.take(0) =~= Seq::<ScriptletView>::empty());
            assert(Seq::<ScriptletView>::empty().filter(pred) =~= Seq::<ScriptletView>::empty());
        }
        while i < self.scriptlets.len()
            invariant
                0 <= i <= self@.scriptlets.len(),
                sv == self@.scriptlets,
                pred == (|v: ScriptletView| has_link(self@.links, tid as int, v.id)),
                scriptlet_views(fwd@) == sv.take(i as int).filter(pred),
            decreases self.scriptlets.len() - i,
        {
            let ghost before = scriptlet_views(fwd@);
            if self.has_link_exec(tid, self.scriptlets[i].id) {
                fwd.push(self.scriptlets[i].clone());
                proof {
                    assert(scriptlet_views(fwd@) =~= before.push(sv[i as int]));
                }
            }
            proof {
                assert(sv.take(i as int).push(sv[i as int]) =~= sv.take(i as int + 1));
                sv.take(i as int).lemma_filter_push(sv[i as int], pred);
            }
            i += 1;
        }
        proof {
            assert(sv.take(sv.len() as int) =~= sv);
        }
        let n = fwd.len();
        let mut out: Vec<ScriptletData> = Vec::new();
        let mut j: usize = 0;
        while j < n
            invariant
                0 <= j <= n == fwd@.len(),
                out@.len() == j,
                forall|m: int| 0 <= m < j ==> (#[trigger] out@[m])@ == scriptlet_views(fwd@)[n - 1 - m],
            decreases n - j,
        {
            out.push(fwd[n - 1 - j].clone());
            j += 1;
        }
        proof {
            assert(scriptlet_views(out@) =~= scriptlet_views(fwd@).reverse());
        }
        Ok(out)
    }

    /// The ranked results of a free-text query, best match first.
    ///
    /// Matching is prefix-tolerant and substring-aware: a record is always
    /// relevant enough when a query token prefix-matches one of its indexed
    /// words, or when the whole query occurs verbatim (case-insensitively)
    /// inside its name, description or command. An empty query or a query
    /// with no strong enough match yields an empty result, never an error.
    pub fn search_scriptlets(&self, query: &str) -> (r: Result<Vec<ScriptletData>, DocuError>)
        requires
            self@.inv(),
        ensures
            r is Ok,
            match r {
                Ok(out) => scriptlet_views(out@).to_multiset() == hits(
                    self@.scriptlets,
                    query_tokens(query@),
                    crate::text::lower(query@),
                ).to_multiset() && sorted_by_rank(
                    query_tokens(query@),
                    crate::text::lower(query@),
                    scriptlet_views(out@),
                ),
                Err(_) => false,
            },
    {
        proof {
            assert forall|i: int|
                0 <= i < self.entries@.len() implies #[trigger] self.entries@[i]@.tokens
                == entry_tokens(self.scriptlets@[i]@) by {
                assert(self@.entries[i] == self.entries@[i]@);
                assert(self@.scriptlets[i] == self.scriptlets@[i]@);
            }
        }
        let out = match_scriptlets(&self.scriptlets, &self.entries, query);
        proof {
            assert(scriptlet_views(self.scriptlets@) == self@.scriptlets);
        }
        Ok(out)
    }

    /// Every stored tool, in creation order.
    pub fn get_all_tools(&self) -> (r: Result<Vec<ToolData>, DocuError>)
        ensures
            r is Ok,
            match r {
                Ok(out) => out@.len() == self@.tools.len() && forall|i: int|
                    0 <= i < out@.len() ==> (#[trigger] out@[i])@ == self@.tools[i].name,
                Err(_) => false,
            },
    {
        let mut out: Vec<ToolData> = Vec::new();
        let mut i: usize = 0;
        while i < self.tools.len()
            invariant
                0 <= i <= self@.tools.len(),
                out@.len() == i,
                forall|j: int| 0 <= j < i ==> (#[trigger] out@[j])@ == self@.tools[j].name,
            decreases self.tools.len() - i,
        {
            out.push(ToolData { name: self.tools[i].name.clone() });
            i += 1;
        }
        Ok(out)
    }

    /// The tools a stored scriptlet references, in tool-table order. An id
    /// with no scriptlet row is reported as [`DocuError::NotFound`].
    pub fn get_tools_for_scriptlet(&self, scriptlet_id: i64) -> (r: Result<Vec<ToolData>, DocuError>)
        requires
            self@.inv(),
        ensures
            match r {
                Ok(out) => has_scriptlet_id(self@.scriptlets, scriptlet_id as int) && ({
                    let lt = linked_tools(self@, scriptlet_id as int);
                    out@.len() == lt.len() && forall|i: int|
                        0 <= i < out@.len() ==> (#[trigger] out@[i])@ == lt[i].name
                }),
                Err(e) => e is NotFound && !has_scriptlet_id(
                    self@.scriptlets,
                    scriptlet_id as int,
                ),
            },
    {
        broadcast use vstd::seq_lib::group_seq_properties;

        let mut found = false;
        let mut i: usize = 0;
        while i < self.scriptlets.len()
            invariant
                0 <= i <= self@.scriptlets.len(),
                found == exists|j: int|
                    0 <= j < i && (#[trigger] self@.scriptlets[j]).id == scriptlet_id as int,
            decreases self.scriptlets.len() - i,
        {
            let ghost f0 = found;
            if self.scriptlets[i].id == scriptlet_id {
                found = true;
            }
            proof {
                if found {
                    if f0 {
                        let j = choose|j: int|
                            0 <= j < i && (#[trigger] self@.scriptlets[j]).id == scriptlet_id
                                as int;
                        assert(0 <= j < i + 1 && self@.scriptlets[j].id == scriptlet_id as int);
                    } else {
                        assert(self@.scriptlets[i as int].id == scriptlet_id as int);
                    }
                }
            }
            i += 1;
        }
        if !found {
            return Err(DocuError::NotFound);
        }
        let ghost tv = self@.tools;
        let ghost pred = |t: ToolRowView| has_link(self@.links, t.id, scriptlet_id as int);
        let mut fwd: Vec<ToolData> = Vec::new();
        let mut k: usize = 0;
        proof {
            assert(tv.take(0) =~= Seq::<ToolRowView>::empty());
            assert(Seq::<ToolRowView>::empty().filter(pred) =~= Seq::<ToolRowView>::empty());
        }
        while k < self.tools.len()
            invariant
                0 <= k <= self@.tools.len(),
                tv == self@.tools,
                pred == (|t: ToolRowView| has_link(self@.links, t.id, scriptlet_id as int)),
                ({
                    let lt = tv.take(k as int).filter(pred);
                    fwd@.len() == lt.len() && forall|m: int|
                        0 <= m < fwd@.len() ==> (#[trigger] fwd@[m])@ == lt[m].name
                }),
            decreases self.tools.len() - k,
        {
            if self.has_link_exec(self.tools[k].id, scriptlet_id) {
                fwd.push(ToolData { name: self.tools[k].name.clone() });
            }
            proof {
                assert(tv.take(k as int).push(tv[k as int]) =~= tv.take(k as int + 1));
                tv.take(k as int).lemma_filter_push(tv[k as int], pred);
            }
            k += 1;
        }
        proof {
            assert(tv.take(tv.len() as int) =~= tv);
        }
        Ok(fwd)
    }
}

/// Well-formedness of loaded scriptlet rows: ids positive, strictly
/// growing along the table and with room for a successor; names unique.
pub open spec fn scriptlet_rows_valid(sv: Seq<ScriptletView>) -> bool {
    &&& forall|i: int| 0 <= i < sv.len() ==> 1 <= (#[trigger] sv[i]).id < i64::MAX
    &&& forall|i: int, j: int|
        0 <= i < j < sv.len() ==> (#[trigger] sv[i]).id < (#[trigger] sv[j]).id
    &&& forall|i: int, j: int|
        0 <= i < j < sv.len() ==> (#[trigger] sv[i]).name != (#[trigger] sv[j]).name
}

/// Well-formedness of loaded tool rows, in the same sense.
pub open spec fn tool_rows_valid(tv: Seq<ToolRowView>) -> bool {
    &&& forall|i: int| 0 <= i < tv.len() ==> 1 <= (#[trigger] tv[i]).id < i64::MAX
    &&& forall|i: int, j: int|
        0 <= i < j < tv.len() ==> (#[trigger] tv[i]).id < (#[trigger] tv[j]).id
    &&& forall|i: int, j: int|
        0 <= i < j < tv.len() ==> (#[trigger] tv[i]).name != (#[trigger] tv[j]).name
}

/// Whether loaded rows form a well-formed store.
pub open spec fn rows_valid(
    sv: Seq<ScriptletView>,
    tv: Seq<ToolRowView>,
    links: Seq<LinkRow>,
) -> bool {
    &&& scriptlet_rows_valid(sv)
    &&& tool_rows_valid(tv)
    &&& links_ok(links, tv, sv)
}

/// The id the next insert into a loaded table gets.
pub open spec fn next_id_of_scriptlets(sv: Seq<ScriptletView>) -> int {
    if sv.len() == 0 {
        1
    } else {
        sv.last().id + 1
    }
}

/// The id the next tool created in a loaded table gets.
pub open spec fn next_id_of_tools(tv: Seq<ToolRowView>) -> int {
    if tv.len() == 0 {
        1
    } else {
        tv.last().id + 1
    }
}

fn scriptlet_rows_ok(rows: &Vec<ScriptletData>) -> (r: bool)
    ensures
        r == scriptlet_rows_valid(scriptlet_views(rows@)),
{
    let ghost sv = scriptlet_views(rows@);
    let mut i: usize = 0;
    while i < rows.len()
        invariant
            0 <= i <= rows@.len(),
            sv == scriptlet_views(rows@),
            forall|a: int| 0 <= a < i ==> 1 <= (#[trigger] sv[a]).id < i64::MAX,
            forall|a: int, b: int| 0 <= a < b < i ==> (#[trigger] sv[a]).id < (#[trigger] sv[b]).id,
            forall|a: int, b: int|
                0 <= a < b < i ==> (#[trigger] sv[a]).name != (#[trigger] sv[b]).name,
        decreases rows.len() - i,
    {
        if !(rows[i].id >= 1 && rows[i].id < i64::MAX) {
            proof {
                assert(!(1 <= sv[i as int].id < i64::MAX));
            }
            return false;
        }
        if i > 0 && !(rows[i - 1].id < rows[i].id) {
            proof {
                assert(!(sv[i as int - 1].id < sv[i as int].id));
            }
            return false;
        }
        let mut j: usize = 0;
        while j < i
            invariant
                0 <= j <= i < rows@.len(),
                sv == scriptlet_views(rows@),
                forall|a: int| 0 <= a < j ==> (#[trigger] sv[a]).name != sv[i as int].name,
            decreases i - j,
        {
            if crate::text::str_eq(rows[j].name.as_str(), rows[i].name.as_str()) {
                proof {
                    assert(sv[j as int].name == sv[i as int].name);
                }
                return false;
            }
            j += 1;
        }
        i += 1;
    }
    true
}

fn tool_rows_ok(rows: &Vec<ToolRow>) -> (r: bool)
    ensures
        r == tool_rows_valid(tool_views(rows@)),
{
    let ghost tv = tool_views(rows@);
    let mut i: usize = 0;
    while i < rows.len()
        invariant
            0 <= i <= rows@.len(),
            tv == tool_views(rows@),
            forall|a: int| 0 <= a < i ==> 1 <= (#[trigger] tv[a]).id < i64::MAX,
            forall|a: int, b: int| 0 <= a < b < i ==> (#[trigger] tv[a]).id < (#[trigger] tv[b]).id,
            forall|a: int, b: int|
                0 <= a < b < i ==> (#[trigger] tv[a]).name != (#[trigger] tv[b]).name,
        decreases rows.len() - i,
    {
        if !(rows[i].id >= 1 && rows[i].id < i64::MAX) {
            proof {
                assert(!(1 <= tv[i as int].id < i64::MAX));
            }
            return false;
        }
        if i > 0 && !(rows[i - 1].id < rows[i].id) {
            proof {
                assert(!(tv[i as int - 1].id < tv[i as int].id));
            }
            return false;
        }
        let mut j: usize = 0;
        while j < i
            invariant
                0 <= j <= i < rows@.len(),
                tv == tool_views(rows@),
                forall|a: int| 0 <= a < j ==> (#[trigger] tv[a]).name != tv[i as int].name,
            decreases i - j,
        {
            if crate::text::str_eq(rows[j].name.as_str(), rows[i].name.as_str()) {
                proof {
                    assert(tv[j as int].name == tv[i as int].name);
                }
                return false;
            }
            j += 1;
        }
        i += 1;
    }
    true
}

fn link_rows_ok(links: &Vec<LinkRow>, scriptlets: &Vec<ScriptletData>, tools: &Vec<ToolRow>) -> (r:
    bool)
    ensures
        r == links_ok(links@, tool_views(tools@), scriptlet_views(scriptlets@)),
{
    let ghost sv = scriptlet_views(scriptlets@);
    let ghost tv = tool_views(tools@);
    let mut i: usize = 0;
    while i < links.len()
        invariant
            0 <= i <= links@.len(),
            sv == scriptlet_views(scriptlets@),
            tv == tool_views(tools@),
            forall|a: int, b: int|
                0 <= a < b < i ==> #[trigger] links@[a] != #[trigger] links@[b],
            forall|a: int|
                0 <= a < i ==> has_tool_id(tv, (#[trigger] links@[a]).tool_id as int)
                    && has_scriptlet_id(sv, links@[a].scriptlet_id as int),
        decreases links.len() - i,
    {
        let l = links[i];
        let mut j: usize = 0;
        while j < i
            invariant
                0 <= j <= i < links@.len(),
                l == links@[i as int],
                forall|a: int| 0 <= a < j ==> #[trigger] links@[a] != l,
            decreases i - j,
        {
            if links[j] == l {
                return false;
            }
            j += 1;
        }
        let mut found_tool = false;
        let mut t: usize = 0;
        while t < tools.len()
            invariant
                0 <= t <= tools@.len(),
                tv == tool_views(tools@),
                found_tool == exists|a: int|
                    0 <= a < t && (#[trigger] tv[a]).id == l.tool_id as int,
            decreases tools.len() - t,
        {
            let ghost f0 = found_tool;
            if tools[t].id == l.tool_id {
                found_tool = true;
            }
            proof {
                if found_tool {
                    if f0 {
                        let a = choose|a: int|
                            0 <= a < t && (#[trigger] tv[a]).id == l.tool_id as int;
                        assert(0 <= a < t + 1 && tv[a].id == l.tool_id as int);
                    } else {
                        assert(tv[t as int].id == l.tool_id as int);
                    }
                }
            }
            t += 1;
        }
        if !found_tool {
            return false;
        }
        let mut found_s = false;
        let mut s: usize = 0;
        while s < scriptlets.len()
            invariant
                0 <= s <= scriptlets@.len(),
                sv == scriptlet_views(scriptlets@),
                found_s == exists|a: int|
                    0 <= a < s && (#[trigger] sv[a]).id == l.scriptlet_id as int,
            decreases scriptlets.len() - s,
        {
            let ghost f0 = found_s;
            if scriptlets[s].id == l.scriptlet_id {
                found_s = true;
            }
            proof {
                if found_s {
                    if f0 {
                        let a = choose|a: int|
                            0 <= a < s && (#[trigger] sv[a]).id == l.scriptlet_id as int;
                        assert(0 <= a < s + 1 && sv[a].id == l.scriptlet_id as int);
                    } else {
                        assert(sv[s as int].id == l.scriptlet_id as int);
                    }
                }
            }
            s += 1;
        }
        if !found_s {
            return false;
        }
        i += 1;
    }
    true
}

impl Store {
    /// Build a store from loaded rows, validating them and deriving the
    /// index. Rows that do not form a well-formed store are rejected as
    /// [`DocuError::StorageUnavailable`], exactly when [`rows_valid`]
    /// fails of them.
    pub fn from_rows(
        scriptlets: Vec<ScriptletData>,
        tools: Vec<ToolRow>,
        links: Vec<LinkRow>,
    ) -> (r: Result<Store, DocuError>)
        ensures
            match r {
                Ok(s) => {
                    &&& rows_valid(scriptlet_views(scriptlets@), tool_views(tools@), links@)
                    &&& s@.inv()
                    &&& s@.scriptlets == scriptlet_views(scriptlets@)
                    &&& s@.tools == tool_views(tools@)
                    &&& s@.links == links@
                    &&& s@.next_scriptlet_id == next_id_of_scriptlets(scriptlet_views(scriptlets@))
                    &&& s@.next_tool_id == next_id_of_tools(tool_views(tools@))
                },
                Err(e) => e is StorageUnavailable && !rows_valid(
                    scriptlet_views(scriptlets@),
                    tool_views(tools@),
                    links@,
                ),
            },
    {
        if !scriptlet_rows_ok(&scriptlets) {
            return Err(DocuError::StorageUnavailable);
        }
        if !tool_rows_ok(&tools) {
            return Err(DocuError::StorageUnavailable);
        }
        if !link_rows_ok(&links, &scriptlets, &tools) {
            return Err(DocuError::StorageUnavailable);
        }
        let ghost sv = scriptlet_views(scriptlets@);
        let ghost tv = tool_views(tools@);
        let mut entries: Vec<IndexEntry> = Vec::new();
        let mut i: usize = 0;
        while i < scriptlets.len()
            invariant
                0 <= i <= scriptlets@.len(),
                sv == scriptlet_views(scriptlets@),
                entries@.len() == i,
                forall|m: int|
                    0 <= m < i ==> (#[trigger] entries@[m])@.scriptlet_id == sv[m].id
                        && entries@[m]@.tokens == entry_tokens(sv[m]),
            decreases scriptlets.len() - i,
        {
            entries.push(entry_of(&scriptlets[i]));
            i += 1;
        }
        let next_sid: i64;
        if scriptlets.len() == 0 {
            next_sid = 1;
        } else {
            let last = scriptlets.len() - 1;
            proof {
                assert(1 <= sv[last as int].id < i64::MAX);
            }
            next_sid = scriptlets[last].id + 1;
        }
        let next_tid: i64;
        if tools.len() == 0 {
            next_tid = 1;
        } else {
            let last = tools.len() - 1;
            proof {
                assert(1 <= tv[last as int].id < i64::MAX);
            }
            next_tid = tools[last].id + 1;
        }
        let s = Store {
            scriptlets,
            tools,
            links,
            entries,
            next_scriptlet_id: next_sid,
            next_tool_id: next_tid,
        };
        proof {
            assert forall|a: int| 0 <= a < sv.len() implies 1 <= (#[trigger] sv[a]).id
                < next_sid as int by {
                if a < sv.len() - 1 {
                    assert(sv[a].id < sv[sv.len() - 1].id);
                }
            }
            assert forall|a: int| 0 <= a < tv.len() implies 1 <= (#[trigger] tv[a]).id
                < next_tid as int by {
                if a < tv.len() - 1 {
                    assert(tv[a].id < tv[tv.len() - 1].id);
                }
            }
        }
        Ok(s)
    }
}

/// The scriptlets linked to the given tool id, in table order.
pub open spec fn linked_scriptlets(v: StoreView, tool_id: int) -> Seq<ScriptletView> {
    v.scriptlets.filter(|s: ScriptletView| has_link(v.links, tool_id, s.id))
}

/// The tools linked to the given scriptlet id, in table order.
pub open spec fn linked_tools(v: StoreView, scriptlet_id: int) -> Seq<ToolRowView> {
    v.tools.filter(|t: ToolRowView| has_link(v.links, t.id, scriptlet_id))
}

} // verus!
