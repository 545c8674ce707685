//! The laws the store obeys, stated over the same spec functions its
//! operations promise in their contracts and proved once and for all.

use vstd::prelude::*;

use crate::data_types::ScriptletView;
use crate::search::{
    entry_tokens, field_hit, hits, relevance, score, token_quality, PREFIX_WEIGHT,
    RELEVANCE_CUTOFF,
};
use crate::text::{is_prefix, is_substring, lower};
use crate::store::{
    apply_tool, apply_tools, has_name, has_tool_named, id_in, kept_links, kept_scriptlets,
    lemma_filter_keeps, tool_id_of, tool_idx_of, tools_ok, upsert_tool, LinkRow, ToolRowView,
};

verus! {

/// A sequence whose members all satisfy the predicate is its own filtrate.
proof fn lemma_filter_all<T>(s: Seq<T>, p: spec_fn(T) -> bool)
    requires
        forall|i: int| 0 <= i < s.len() ==> p(#[trigger] s[i]),
    ensures
        s.filter(p) == s,
    decreases s.len(),
{
    reveal(Seq::filter);
    if s.len() == 0 {
        assert(s.filter(p) =~= s);
    } else {
        let sub = s.drop_last();
        assert forall|i: int| 0 <= i < sub.len() implies p(#[trigger] sub[i]) by {
            assert(sub[i] == s[i]);
            assert(p(s[i]));
        }
        lemma_filter_all(sub, p);
        assert(p(s.last()));
        assert(s.filter(p) =~= s);
    }
}

/// Two sequences with equal multisets hold the same members.
pub proof fn lemma_multiset_contains_transfer<T>(a: Seq<T>, b: Seq<T>, x: T)
    requires
        a.to_multiset() == b.to_multiset(),
        b.contains(x),
    ensures
        a.contains(x),
{
    broadcast use vstd::seq_lib::to_multiset_contains;

    assert(b.to_multiset().contains(x));
}

/// Removing the same ids twice succeeds both times and has no effect the
/// second time: what the first removal keeps, the second keeps unchanged.
pub proof fn lemma_remove_idempotent(
    sv: Seq<ScriptletView>,
    links: Seq<LinkRow>,
    ids: Seq<i64>,
)
    ensures
        kept_scriptlets(kept_scriptlets(sv, ids), ids) == kept_scriptlets(sv, ids),
        kept_links(kept_links(links, ids), ids) == kept_links(links, ids),
{
    let spred = |v: ScriptletView| !id_in(ids, v.id);
    sv.filter_lemma(spred);
    lemma_filter_all(sv.filter(spred), spred);
    let lpred = |l: LinkRow| !id_in(ids, l.scriptlet_id as int);
    links.filter_lemma(lpred);
    lemma_filter_all(links.filter(lpred), lpred);
}

/// Index lockstep, first half: every scriptlet a query surfaces is a live
/// row of the table, so the ids any search returns are a subset of the ids
/// a full listing returns.
pub proof fn lemma_search_subset(sv: Seq<ScriptletView>, qts: Seq<Seq<char>>, qlow: Seq<char>)
    ensures
        forall|i: int|
            0 <= i < hits(sv, qts, qlow).len() ==> sv.contains(
                #[trigger] hits(sv, qts, qlow)[i],
            ),
        forall|i: int|
            0 <= i < hits(sv, qts, qlow).len() ==> sv.reverse().contains(
                #[trigger] hits(sv, qts, qlow)[i],
            ),
{
    let pred = |v: ScriptletView| score(qts, qlow, v) >= RELEVANCE_CUTOFF;
    lemma_filter_keeps(sv, pred, |a: ScriptletView, b: ScriptletView| true);
    assert forall|i: int| 0 <= i < hits(sv, qts, qlow).len() implies sv.reverse().contains(
        #[trigger] hits(sv, qts, qlow)[i],
    ) by {
        assert(sv.contains(hits(sv, qts, qlow)[i]));
        let k = choose|k: int| 0 <= k < sv.len() && sv[k] == hits(sv, qts, qlow)[i];
        assert(sv.reverse()[sv.len() - 1 - k] == sv[k]);
    }
}

/// Index lockstep, second half: after a removal, no query over the
/// resulting store ever surfaces a removed id again.
pub proof fn lemma_removed_never_found(
    sv: Seq<ScriptletView>,
    ids: Seq<i64>,
    qts: Seq<Seq<char>>,
    qlow: Seq<char>,
)
    ensures
        forall|i: int|
            0 <= i < hits(kept_scriptlets(sv, ids), qts, qlow).len() ==> !id_in(
                ids,
                (#[trigger] hits(kept_scriptlets(sv, ids), qts, qlow)[i]).id,
            ),
{
    let kept = kept_scriptlets(sv, ids);
    let spred = |v: ScriptletView| !id_in(ids, v.id);
    sv.filter_lemma(spred);
    lemma_search_subset(kept, qts, qlow);
    assert forall|i: int| 0 <= i < hits(kept, qts, qlow).len() implies !id_in(
        ids,
        (#[trigger] hits(kept, qts, qlow)[i]).id,
    ) by {
        assert(kept.contains(hits(kept, qts, qlow)[i]));
        let k = choose|k: int| 0 <= k < kept.len() && kept[k] == hits(kept, qts, qlow)[i];
        assert(spred(sv.filter(spred)[k]));
    }
}

/// The relevance of a query is never negative and never below the worth of
/// any single query token.
proof fn lemma_relevance_at_least(qs: Seq<Seq<char>>, toks: Seq<Seq<char>>, t: int)
    requires
        0 <= t < qs.len(),
    ensures
        relevance(qs, toks) >= token_quality(qs[t], toks),
    decreases qs.len(),
{
    lemma_relevance_nonneg(qs.drop_first(), toks);
    if t > 0 {
        lemma_relevance_at_least(qs.drop_first(), toks, t - 1);
        assert(qs.drop_first()[t - 1] == qs[t]);
    }
}

proof fn lemma_relevance_nonneg(qs: Seq<Seq<char>>, toks: Seq<Seq<char>>)
    ensures
        relevance(qs, toks) >= 0,
    decreases qs.len(),
{
    if qs.len() > 0 {
        lemma_relevance_nonneg(qs.drop_first(), toks);
    }
}

/// Round trip: after inserting a fresh name, the listing holds exactly one
/// record carrying it, with the command and description as given; any
/// query one of whose tokens prefix-matches (in particular, exactly
/// matches) an indexed word of the new record surfaces it; and so does any
/// non-blank query occurring verbatim, case-insensitively, anywhere inside
/// the record's name, description or command.
pub proof fn lemma_round_trip(
    sv: Seq<ScriptletView>,
    added: ScriptletView,
    qts: Seq<Seq<char>>,
    qlow: Seq<char>,
)
    requires
        !has_name(sv, added.name),
    ensures
        sv.push(added).reverse().contains(added),
        forall|i: int|
            0 <= i < sv.push(added).reverse().len() && (#[trigger] sv.push(added).reverse()[i]).name
                == added.name ==> sv.push(added).reverse()[i] == added,
        (exists|t: int, i: int|
            0 <= t < qts.len() && 0 <= i < entry_tokens(added).len() && is_prefix(
                #[trigger] qts[t],
                #[trigger] entry_tokens(added)[i],
            )) ==> hits(sv.push(added), qts, qlow).contains(added),
        (qts.len() > 0 && (is_substring(qlow, lower(added.name)) || is_substring(
            qlow,
            lower(added.description),
        ) || is_substring(qlow, lower(added.command)))) ==> hits(
            sv.push(added),
            qts,
            qlow,
        ).contains(added),
{
    let s2 = sv.push(added);
    let n = sv.len() as int;
    let toks = entry_tokens(added);
    let pred = |v: ScriptletView| score(qts, qlow, v) >= RELEVANCE_CUTOFF;
    assert(s2[n] == added);
    assert(s2.reverse()[0] == added);
    assert(s2.reverse().contains(added));
    assert forall|i: int|
        0 <= i < s2.reverse().len() && (#[trigger] s2.reverse()[i]).name == added.name implies s2
        .reverse()[i] == added by {
        let k = s2.len() - 1 - i;
        assert(s2.reverse()[i] == s2[k]);
        if k < n {
            assert(sv[k].name == added.name);
            assert(has_name(sv, added.name));
        }
    }
    if exists|t: int, i: int|
        0 <= t < qts.len() && 0 <= i < toks.len() && is_prefix(
            #[trigger] qts[t],
            #[trigger] toks[i],
        ) {
        let (t, i) = choose|t: int, i: int|
            0 <= t < qts.len() && 0 <= i < toks.len() && is_prefix(
                #[trigger] qts[t],
                #[trigger] toks[i],
            );
        assert(token_quality(qts[t], toks) >= PREFIX_WEIGHT as int);
        lemma_relevance_at_least(qts, toks, t);
        assert(score(qts, qlow, added) >= RELEVANCE_CUTOFF);
        s2.filter_lemma(pred);
        assert(pred(s2[n]));
        assert(hits(s2, qts, qlow).contains(added));
    }
    if qts.len() > 0 && (is_substring(qlow, lower(added.name)) || is_substring(
        qlow,
        lower(added.description),
    ) || is_substring(qlow, lower(added.command))) {
        assert(field_hit(qts, qlow, added));
        lemma_relevance_nonneg(qts, toks);
        assert(score(qts, qlow, added) >= RELEVANCE_CUTOFF);
        s2.filter_lemma(pred);
        assert(pred(s2[n]));
        assert(hits(s2, qts, qlow).contains(added));
    }
}

/// A query whose best match's relevance falls below the cutoff yields an
/// empty result, even when the query is non-empty and some token matched.
pub proof fn lemma_ranking_cutoff(sv: Seq<ScriptletView>, qts: Seq<Seq<char>>, qlow: Seq<char>)
    requires
        forall|i: int|
            0 <= i < sv.len() ==> score(qts, qlow, #[trigger] sv[i]) < RELEVANCE_CUTOFF,
    ensures
        hits(sv, qts, qlow).len() == 0,
{
    let pred = |v: ScriptletView| score(qts, qlow, v) >= RELEVANCE_CUTOFF;
    sv.filter_lemma(pred);
    lemma_filter_keeps(sv, pred, |a: ScriptletView, b: ScriptletView| true);
    if hits(sv, qts, qlow).len() > 0 {
        assert(pred(sv.filter(pred)[0]));
        assert(sv.contains(sv.filter(pred)[0]));
        let k = choose|k: int| 0 <= k < sv.len() && sv[k] == hits(sv, qts, qlow)[0];
        assert(score(qts, qlow, sv[k]) < RELEVANCE_CUTOFF);
    }
}

/// Tool dedup: two scriptlets referencing the same tool name leave exactly
/// one tool row carrying that name, and two link rows tying it to the two
/// scriptlets.
pub proof fn lemma_tool_dedup(
    tv: Seq<ToolRowView>,
    next: int,
    links: Seq<LinkRow>,
    tool: Seq<char>,
    sid1: int,
    sid2: int,
)
    requires
        tools_ok(tv, next),
        next < i64::MAX,
        1 <= sid1 < i64::MAX,
        1 <= sid2 < i64::MAX,
        sid1 != sid2,
        forall|i: int|
            0 <= i < links.len() ==> (#[trigger] links[i]).scriptlet_id as int != sid1 && links[
                i
            ].scriptlet_id as int != sid2,
    ensures
        ({
            let (tv1, next1, links1) = apply_tools(tv, next, links, seq![tool], sid1);
            let (tv2, next2, links2) = apply_tools(tv1, next1, links1, seq![tool], sid2);
            &&& has_tool_named(tv2, tool)
            &&& forall|i: int, j: int|
                0 <= i < j < tv2.len() ==> !((#[trigger] tv2[i]).name == tool && (
                #[trigger] tv2[j]).name == tool)
            &&& links2.len() == links.len() + 2
            &&& links2.contains(
                LinkRow {
                    tool_id: tool_id_of(tv2, tool) as i64,
                    scriptlet_id: sid1 as i64,
                },
            )
            &&& links2.contains(
                LinkRow {
                    tool_id: tool_id_of(tv2, tool) as i64,
                    scriptlet_id: sid2 as i64,
                },
            )
        }),
{
    let names = seq![tool];
    assert(names[0] == tool);
    assert(names.drop_first() =~= Seq::<Seq<char>>::empty());
    let (tv1, next1, links1) = apply_tool(tv, next, links, tool, sid1);
    assert(apply_tools(tv1, next1, links1, names.drop_first(), sid1) == (tv1, next1, links1));
    assert(apply_tools(tv, next, links, names, sid1) == (tv1, next1, links1));
    if !has_tool_named(tv, tool) {
        crate::store::lemma_tools_push(tv, next, tool);
    } else {
        let k = tool_idx_of(tv, tool);
        assert(tv[k].name == tool);
    }
    assert(tools_ok(tv1, next1));
    assert(has_tool_named(tv1, tool));
    let tid = tool_id_of(tv1, tool);
    let k1 = tool_idx_of(tv1, tool);
    assert(tv1[k1].name == tool && tv1[k1].id == tid);
    assert(1 <= tid < i64::MAX);
    let l1 = LinkRow { tool_id: tid as i64, scriptlet_id: sid1 as i64 };
    assert(!links.contains(l1)) by {
        if links.contains(l1) {
            let w = choose|w: int| 0 <= w < links.len() && links[w] == l1;
            assert(links[w].scriptlet_id as int != sid1);
        }
    }
    assert(links1 == links.push(l1));
    let (tv2, next2, links2) = apply_tool(tv1, next1, links1, tool, sid2);
    assert(apply_tools(tv2, next2, links2, names.drop_first(), sid2) == (tv2, next2, links2));
    assert(apply_tools(tv1, next1, links1, names, sid2) == (tv2, next2, links2));
    assert(upsert_tool(tv1, next1, tool) == (tv1, next1));
    assert(tv2 == tv1);
    let l2 = LinkRow { tool_id: tid as i64, scriptlet_id: sid2 as i64 };
    assert(!links1.contains(l2)) by {
        if links1.contains(l2) {
            let w = choose|w: int| 0 <= w < links1.len() && links1[w] == l2;
            if w < links.len() {
                assert(links[w].scriptlet_id as int != sid2);
            } else {
                assert(links1[w] == l1);
            }
        }
    }
    assert(links2 == links1.push(l2));
    assert(links2.len() == links.len() + 2);
    assert(links2[links.len() as int] == l1);
    assert(links2[links.len() as int + 1] == l2);
    assert(links2.contains(l1));
    assert(links2.contains(l2));
    assert forall|i: int, j: int|
        0 <= i < j < tv2.len() implies !((#[trigger] tv2[i]).name == tool && (
    #[trigger] tv2[j]).name == tool) by {
        assert(tv2[i].name != tv2[j].name);
    }
}

} // verus!
