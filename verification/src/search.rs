//! The full-text index and the ranked search over it.
//!
//! One index entry is kept per live scriptlet; it holds the tokenized,
//! lowercased text of the scriptlet's name, description and command. A query
//! is split on whitespace and lowercased; a token scores by how well it
//! matches an indexed word (exactly, as a prefix, or merely somewhere
//! inside it), and a whole query occurring verbatim inside a field scores
//! on its own — so a search for any exact substring of a field finds its
//! record, and a prefix of any indexed word suffices. Results are ordered
//! by relevance (then newest first), and any record whose relevance falls
//! below [`RELEVANCE_CUTOFF`] is excluded: that is what keeps a query with
//! an unmatched token from dragging in records on a bare in-word hit.

use vstd::prelude::*;

use crate::data_types::{scriptlet_views, ScriptletData, ScriptletView};
use crate::normalize::{lemma_nonws_len, nonws_len};
use crate::text::{
    alnum_char, chars_eq, chars_of, is_alnum, is_prefix, is_substring, is_ws, lower, to_lower_char,
    ws_char,
};

verus! {

/// An exact token hit outweighs a prefix hit, which outweighs a mere
/// in-word hit.
pub const EXACT_WEIGHT: u64 = 3;

pub const PREFIX_WEIGHT: u64 = 2;

pub const INFIX_WEIGHT: u64 = 1;

/// What the whole query occurring verbatim inside one field is worth.
pub const FIELD_WEIGHT: u64 = 2;

/// The fixed relevance cutoff: a scriptlet whose relevance for a query is
/// below this never appears among the results. A prefix hit or a
/// whole-query field hit clears it on its own; a bare in-word token hit
/// does not.
pub const RELEVANCE_CUTOFF: u64 = 2;

/// Length of the maximal leading run of letters and digits.
pub open spec fn alnum_len(s: Seq<char>) -> int
    decreases s.len(),
{
    if s.len() == 0 || !is_alnum(s[0]) {
        0
    } else {
        1 + alnum_len(s.skip(1))
    }
}

pub proof fn lemma_alnum_len(s: Seq<char>)
    ensures
        0 <= alnum_len(s) <= s.len(),
        forall|j: int| 0 <= j < alnum_len(s) ==> is_alnum(#[trigger] s[j]),
        alnum_len(s) < s.len() ==> !is_alnum(s[alnum_len(s)]),
    decreases s.len(),
{
    if s.len() == 0 || !is_alnum(s[0]) {
    } else {
        lemma_alnum_len(s.skip(1));
        assert forall|j: int| 0 <= j < alnum_len(s) implies is_alnum(#[trigger] s[j]) by {
            if j >= 1 {
                assert(is_alnum(s.skip(1)[j - 1]));
            }
        }
        if alnum_len(s) < s.len() {
            assert(!is_alnum(s.skip(1)[alnum_len(s) - 1]));
        }
    }
}

/// The indexed tokens of a text: its maximal runs of letters and digits,
/// lowercased.
pub open spec fn index_tokens(s: Seq<char>) -> Seq<Seq<char>>
    decreases s.len(),
    when true
    via index_tokens_dec
{
    if s.len() == 0 {
        Seq::empty()
    } else if !is_alnum(s[0]) {
        index_tokens(s.skip(1))
    } else {
        seq![lower(s.take(alnum_len(s)))] + index_tokens(s.skip(alnum_len(s)))
    }
}

#[via_fn]
proof fn index_tokens_dec(s: Seq<char>) {
    lemma_alnum_len(s);
}

/// The query tokens of a search string: its maximal runs of
/// non-whitespace characters, lowercased.
pub open spec fn query_tokens(s: Seq<char>) -> Seq<Seq<char>>
    decreases s.len(),
    when true
    via query_tokens_dec
{
    if s.len() == 0 {
        Seq::empty()
    } else if is_ws(s[0]) {
        query_tokens(s.skip(1))
    } else {
        seq![lower(s.take(nonws_len(s)))] + query_tokens(s.skip(nonws_len(s)))
    }
}

#[via_fn]
proof fn query_tokens_dec(s: Seq<char>) {
    lemma_nonws_len(s);
}

/// What one scriptlet contributes to the index: the tokens of its name,
/// description and command.
pub open spec fn entry_tokens(v: ScriptletView) -> Seq<Seq<char>> {
    index_tokens(v.name) + index_tokens(v.description) + index_tokens(v.command)
}

/// The views of a vector of character vectors.
pub open spec fn char_views(ts: Seq<Vec<char>>) -> Seq<Seq<char>> {
    ts.map_values(|t: Vec<char>| t@)
}

/// What one query token is worth against an entry's tokens: an exact hit
/// outweighs a prefix hit, which outweighs an occurrence somewhere inside
/// an indexed word; no hit is worth nothing.
pub open spec fn token_quality(q: Seq<char>, toks: Seq<Seq<char>>) -> int {
    if toks.contains(q) {
        EXACT_WEIGHT as int
    } else if exists|i: int| 0 <= i < toks.len() && is_prefix(q, #[trigger] toks[i]) {
        PREFIX_WEIGHT as int
    } else if exists|i: int| 0 <= i < toks.len() && is_substring(q, #[trigger] toks[i]) {
        INFIX_WEIGHT as int
    } else {
        0
    }
}

/// The relevance of an entry for a query: the summed worth of the query's
/// tokens.
pub open spec fn relevance(qs: Seq<Seq<char>>, toks: Seq<Seq<char>>) -> int
    decreases qs.len(),
{
    if qs.len() == 0 {
        0
    } else {
        token_quality(qs[0], toks) + relevance(qs.drop_first(), toks)
    }
}

/// Whether the whole (non-blank) query occurs verbatim, lowercased, inside
/// one of the record's fields: such a record is always relevant enough to
/// surface, so a search for any exact substring of a field finds it.
pub open spec fn field_hit(qts: Seq<Seq<char>>, qlow: Seq<char>, v: ScriptletView) -> bool {
    qts.len() > 0 && (is_substring(qlow, lower(v.name)) || is_substring(
        qlow,
        lower(v.description),
    ) || is_substring(qlow, lower(v.command)))
}

/// The relevance of a scriptlet for a query, given the query's tokens and
/// its lowercased text: the summed worth of the tokens, plus the
/// whole-query bonus when the query occurs inside a field.
pub open spec fn score(qts: Seq<Seq<char>>, qlow: Seq<char>, v: ScriptletView) -> int {
    relevance(qts, entry_tokens(v)) + if field_hit(qts, qlow, v) {
        FIELD_WEIGHT as int
    } else {
        0
    }
}

/// One index entry: the id of the scriptlet it mirrors and the tokens of
/// that scriptlet's text.
pub struct IndexEntry {
    pub scriptlet_id: i64,
    pub tokens: Vec<Vec<char>>,
}

/// The mathematical content of an index entry.
pub struct EntryView {
    pub scriptlet_id: int,
    pub tokens: Seq<Seq<char>>,
}

impl View for IndexEntry {
    type V = EntryView;

    open spec fn view(&self) -> EntryView {
        EntryView { scriptlet_id: self.scriptlet_id as int, tokens: char_views(self.tokens@) }
    }
}

impl Clone for IndexEntry {
    fn clone(&self) -> (r: Self)
        ensures
            r@ == self@,
    {
        let mut toks: Vec<Vec<char>> = Vec::new();
        let mut i: usize = 0;
        while i < self.tokens.len()
            invariant
                0 <= i <= self.tokens@.len(),
                toks@.len() == i,
                forall|j: int| 0 <= j < i ==> (#[trigger] toks@[j])@ == self.tokens@[j]@,
            decreases self.tokens.len() - i,
        {
            toks.push(crate::text::clone_chars(&self.tokens[i]));
            i += 1;
        }
        proof {
            assert(char_views(toks@) =~= char_views(self.tokens@));
        }
        IndexEntry { scriptlet_id: self.scriptlet_id, tokens: toks }
    }
}

/// The index tokens of one text.
pub fn index_tokens_of(s: &str) -> (r: Vec<Vec<char>>)
    ensures
        char_views(r@) == index_tokens(s@),
{
    let cs = chars_of(s);
    let mut out: Vec<Vec<char>> = Vec::new();
    let mut i: usize = 0;
    proof {
        assert(s@.skip(0) =~= s@);
    }
    while i < cs.len()
        invariant
            0 <= i <= cs.len(),
            cs@ == s@,
            char_views(out@) + index_tokens(s@.skip(i as int)) =~= index_tokens(s@),
        decreases cs.len() - i,
    {
        if !alnum_char(cs[i]) {
            proof {
                assert(s@.skip(i as int).skip(1) =~= s@.skip(i as int + 1));
            }
            i += 1;
        } else {
            let ghost t = s@.skip(i as int);
            let e = scan_alnum(&cs, i);
            proof {
                lemma_alnum_len(t);
                assert(t.take(alnum_len(t)) =~= s@.subrange(i as int, e as int));
                assert(t.skip(alnum_len(t)) =~= s@.skip(e as int));
            }
            let mut tok: Vec<char> = Vec::new();
            let mut j = i;
            while j < e
                invariant
                    i <= j <= e <= cs.len(),
                    cs@ == s@,
                    tok@ == lower(s@.subrange(i as int, j as int)),
                decreases e - j,
            {
                tok.push(to_lower_char(cs[j]));
                proof {
                    assert(lower(s@.subrange(i as int, j as int)).push(
                        crate::text::lower_char(s@[j as int]),
                    ) =~= lower(s@.subrange(i as int, j as int + 1)));
                }
                j += 1;
            }
            out.push(tok);
            proof {
                assert(char_views(out@) =~= char_views(out@.drop_last()).push(
                    lower(s@.subrange(i as int, e as int)),
                ));
            }
            i = e;
        }
    }
    proof {
        assert(index_tokens(s@.skip(s@.len() as int)) =~= Seq::<Seq<char>>::empty());
        assert(char_views(out@) =~= index_tokens(s@));
    }
    out
}

/// First index at or after `from` holding a character that is not a letter
/// or digit, or the length if there is none.
fn scan_alnum(cs: &Vec<char>, from: usize) -> (e: usize)
    requires
        from <= cs.len(),
    ensures
        from <= e <= cs.len(),
        e - from == alnum_len(cs@.skip(from as int)),
{
    let mut e = from;
    while e < cs.len() && alnum_char(cs[e])
        invariant
            from <= e <= cs.len(),
            forall|j: int| from <= j < e ==> is_alnum(#[trigger] cs@[j]),
        decreases cs.len() - e,
    {
        e += 1;
    }
    proof {
        let t = cs@.skip(from as int);
        lemma_alnum_len(t);
        assert(forall|j: int| 0 <= j < t.len() ==> #[trigger] t[j] == cs@[from + j]);
        assert(e - from == alnum_len(t)) by {
            if e - from < alnum_len(t) {
                assert(is_alnum(t[e - from]));
                assert(!is_alnum(cs@[e as int]));
            }
            if e - from > alnum_len(t) {
                assert(!is_alnum(t[alnum_len(t)]));
                assert(is_alnum(cs@[from + alnum_len(t)]));
            }
        }
    }
    e
}

/// The query tokens of one search string.
pub fn query_tokens_of(s: &str) -> (r: Vec<Vec<char>>)
    ensures
        char_views(r@) == query_tokens(s@),
{
    let cs = chars_of(s);
    let mut out: Vec<Vec<char>> = Vec::new();
    let mut i: usize = 0;
    proof {
        assert(s@.skip(0) =~= s@);
    }
    while i < cs.len()
        invariant
            0 <= i <= cs.len(),
            cs@ == s@,
            char_views(out@) + query_tokens(s@.skip(i as int)) =~= query_tokens(s@),
        decreases cs.len() - i,
    {
        if ws_char(cs[i]) {
            proof {
                assert(s@.skip(i as int).skip(1) =~= s@.skip(i as int + 1));
            }
            i += 1;
        } else {
            let ghost t = s@.skip(i as int);
            let e = crate::normalize::scan_nonws(&cs, i);
            proof {
                lemma_nonws_len(t);
                assert(t.take(nonws_len(t)) =~= s@.subrange(i as int, e as int));
                assert(t.skip(nonws_len(t)) =~= s@.skip(e as int));
            }
            let mut tok: Vec<char> = Vec::new();
            let mut j = i;
            while j < e
                invariant
                    i <= j <= e <= cs.len(),
                    cs@ == s@,
                    tok@ == lower(s@.subrange(i as int, j as int)),
                decreases e - j,
            {
                tok.push(to_lower_char(cs[j]));
                proof {
                    assert(lower(s@.subrange(i as int, j as int)).push(
                        crate::text::lower_char(s@[j as int]),
                    ) =~= lower(s@.subrange(i as int, j as int + 1)));
                }
                j += 1;
            }
            out.push(tok);
            proof {
                assert(char_views(out@) =~= char_views(out@.drop_last()).push(
                    lower(s@.subrange(i as int, e as int)),
                ));
            }
            i = e;
        }
    }
    proof {
        assert(query_tokens(s@.skip(s@.len() as int)) =~= Seq::<Seq<char>>::empty());
        assert(char_views(out@) =~= query_tokens(s@));
    }
    out
}

/// What one query token is worth against an entry's tokens.
fn token_quality_of(q: &Vec<char>, toks: &Vec<Vec<char>>) -> (r: u64)
    ensures
        r as int == token_quality(q@, char_views(toks@)),
{
    let ghost tv = char_views(toks@);
    let mut exact = false;
    let mut pref = false;
    let mut within = false;
    let mut i: usize = 0;
    while i < toks.len()
        invariant
            0 <= i <= toks@.len(),
            tv == char_views(toks@),
            exact == tv.take(i as int).contains(q@),
            pref == exists|j: int| 0 <= j < i && is_prefix(q@, #[trigger] tv[j]),
            within == exists|j: int| 0 <= j < i && is_substring(q@, #[trigger] tv[j]),
        decreases toks.len() - i,
    {
        let ghost old_exact = exact;
        let ghost old_pref = pref;
        if chars_eq(q, &toks[i]) {
            exact = true;
        }
        if crate::text::starts_with(q, &toks[i]) {
            pref = true;
        }
        if crate::text::contains_sub(q, &toks[i]) {
            within = true;
        }
        proof {
            assert(tv.take(i as int).push(tv[i as int]) =~= tv.take(i as int + 1));
            if exact {
                if old_exact {
                    let k = choose|k: int| 0 <= k < i && #[trigger] tv.take(i as int)[k] == q@;
                    assert(tv.take(i as int + 1)[k] == q@);
                } else {
                    assert(tv.take(i as int + 1)[i as int] == q@);
                }
            }
            if !exact {
                assert(!tv.take(i as int + 1).contains(q@)) by {
                    if tv.take(i as int + 1).contains(q@) {
                        let k = choose|k: int|
                            0 <= k < i + 1 && #[trigger] tv.take(i as int + 1)[k] == q@;
                        if k < i {
                            assert(tv.take(i as int)[k] == q@);
                        }
                    }
                }
            }
        }
        i += 1;
    }
    proof {
        assert(tv.take(tv.len() as int) =~= tv);
    }
    if exact {
        EXACT_WEIGHT
    } else if pref {
        PREFIX_WEIGHT
    } else if within {
        INFIX_WEIGHT
    } else {
        0
    }
}

/// The relevance of an entry's tokens for the query tokens.
pub fn relevance_of(qs: &Vec<Vec<char>>, toks: &Vec<Vec<char>>) -> (r: u128)
    ensures
        r as int == relevance(char_views(qs@), char_views(toks@)),
        r <= 3 * qs@.len(),
{
    let ghost qv = char_views(qs@);
    let ghost tv = char_views(toks@);
    let mut r: u128 = 0;
    let mut i: usize = 0;
    proof {
        assert(qv.skip(0) =~= qv);
    }
    while i < qs.len()
        invariant
            0 <= i <= qs@.len(),
            qv == char_views(qs@),
            tv == char_views(toks@),
            r + relevance(qv.skip(i as int), tv) == relevance(qv, tv),
            r <= 3 * i,
        decreases qs.len() - i,
    {
        let q = token_quality_of(&qs[i], toks);
        proof {
            assert(qv.skip(i as int).drop_first() =~= qv.skip(i as int + 1));
            assert(qv.skip(i as int)[0] == qv[i as int]);
            assert(token_quality(qv[i as int], tv) <= 3);
        }
        r = r + (q as u128);
        i += 1;
    }
    proof {
        assert(relevance(qv.skip(qv.len() as int), tv) == 0);
    }
    r
}

/// `a` ranks at least as high as `b`: strictly more relevant, or equally
/// relevant and at least as recent (ids grow with time).
pub open spec fn rank_ge(
    qts: Seq<Seq<char>>,
    qlow: Seq<char>,
    a: ScriptletView,
    b: ScriptletView,
) -> bool {
    score(qts, qlow, a) > score(qts, qlow, b) || (score(qts, qlow, a) == score(qts, qlow, b)
        && a.id >= b.id)
}

/// Best match first: every element ranks at least as high as those after it.
pub open spec fn sorted_by_rank(qts: Seq<Seq<char>>, qlow: Seq<char>, s: Seq<ScriptletView>) -> bool {
    forall|i: int, j: int|
        0 <= i < j < s.len() ==> rank_ge(qts, qlow, #[trigger] s[i], #[trigger] s[j])
}

/// The scriptlets relevant enough to surface for a query, in table order.
pub open spec fn hits(vs: Seq<ScriptletView>, qts: Seq<Seq<char>>, qlow: Seq<char>) -> Seq<
    ScriptletView,
> {
    vs.filter(|v: ScriptletView| score(qts, qlow, v) >= RELEVANCE_CUTOFF)
}

/// The index tokens of one scriptlet's text.
pub fn entry_tokens_of(d: &ScriptletData) -> (r: Vec<Vec<char>>)
    ensures
        char_views(r@) == entry_tokens(d@),
{
    let mut r = index_tokens_of(d.name.as_str());
    let mut mid = index_tokens_of(d.description.as_str());
    let mut tail = index_tokens_of(d.command.as_str());
    r.append(&mut mid);
    r.append(&mut tail);
    proof {
        assert(char_views(r@) =~= entry_tokens(d@));
    }
    r
}

/// The index entry mirroring one scriptlet.
pub fn entry_of(d: &ScriptletData) -> (e: IndexEntry)
    ensures
        e@.scriptlet_id == d@.id,
        e@.tokens == entry_tokens(d@),
{
    IndexEntry { scriptlet_id: d.id, tokens: entry_tokens_of(d) }
}

/// Whether the whole query occurs inside one of the record's fields.
fn field_hit_of(qs: &Vec<Vec<char>>, qlow: &Vec<char>, d: &ScriptletData) -> (r: bool)
    ensures
        r == field_hit(char_views(qs@), qlow@, d@),
{
    if qs.len() == 0 {
        return false;
    }
    let f = crate::text::lower_chars(d.name.as_str());
    if crate::text::contains_sub(qlow, &f) {
        return true;
    }
    let f = crate::text::lower_chars(d.description.as_str());
    if crate::text::contains_sub(qlow, &f) {
        return true;
    }
    let f = crate::text::lower_chars(d.command.as_str());
    crate::text::contains_sub(qlow, &f)
}

/// The relevance of one record for the query.
fn score_of(qs: &Vec<Vec<char>>, qlow: &Vec<char>, toks: &Vec<Vec<char>>, d: &ScriptletData) -> (r:
    u128)
    requires
        char_views(toks@) == entry_tokens(d@),
    ensures
        r as int == score(char_views(qs@), qlow@, d@),
{
    let qn = qs.len();
    let rel = relevance_of(qs, toks);
    proof {
        assert(rel <= 3 * (qn as int));
    }
    if field_hit_of(qs, qlow, d) {
        rel + FIELD_WEIGHT as u128
    } else {
        rel
    }
}

/// Whether `a` ranks at least as high as `b` for the given query.
fn rank_ge_of(qs: &Vec<Vec<char>>, qlow: &Vec<char>, a: &ScriptletData, b: &ScriptletData) -> (r:
    bool)
    ensures
        r == rank_ge(char_views(qs@), qlow@, a@, b@),
{
    let ta = entry_tokens_of(a);
    let tb = entry_tokens_of(b);
    let ra = score_of(qs, qlow, &ta, a);
    let rb = score_of(qs, qlow, &tb, b);
    ra > rb || (ra == rb && a.id >= b.id)
}

/// Sort candidates best match first.
fn sort_by_rank(qs: &Vec<Vec<char>>, qlow: &Vec<char>, cand: Vec<ScriptletData>) -> (out: Vec<
    ScriptletData,
>)
    ensures
        scriptlet_views(out@).to_multiset() == scriptlet_views(cand@).to_multiset(),
        sorted_by_rank(char_views(qs@), qlow@, scriptlet_views(out@)),
{
    broadcast use vstd::seq_lib::group_seq_properties;
    broadcast use vstd::seq_lib::to_multiset_insert;
    broadcast use vstd::seq_lib::to_multiset_build;

    let ghost qts = char_views(qs@);
    let ghost ql = qlow@;
    let ghost cv = scriptlet_views(cand@);
    let mut out: Vec<ScriptletData> = Vec::new();
    let mut i: usize = 0;
    while i < cand.len()
        invariant
            0 <= i <= cand@.len(),
            qts == char_views(qs@),
            cv == scriptlet_views(cand@),
            ql == qlow@,
            scriptlet_views(out@).to_multiset() == scriptlet_views(cand@.take(i as int)).to_multiset(),
            sorted_by_rank(qts, ql, scriptlet_views(out@)),
        decreases cand.len() - i,
    {
        let c = cand[i].clone();
        let ghost ov = scriptlet_views(out@);
        // find the first position that ranks strictly below the candidate
        let mut p: usize = 0;
        while p < out.len() && rank_ge_of(qs, qlow, &out[p], &c)
            invariant
                0 <= p <= out@.len(),
                0 <= i < cand@.len(),
                cv == scriptlet_views(cand@),
                qts == char_views(qs@),
                ql == qlow@,
                ov == scriptlet_views(out@),
                c@ == cv[i as int],
                forall|j: int| 0 <= j < p ==> rank_ge(qts, ql, #[trigger] ov[j], c@),
            decreases out.len() - p,
        {
            p += 1;
        }
        out.insert(p, c);
        proof {
            assert(scriptlet_views(out@) =~= ov.insert(p as int, cv[i as int]));
            ov.insert_ensures(p as int, cv[i as int]);
            let nv = scriptlet_views(out@);
            assert forall|x: int, y: int| 0 <= x < y < nv.len() implies rank_ge(
                qts,
                ql,
                #[trigger] nv[x],
                #[trigger] nv[y],
            ) by {
                if x < p && y == p {
                    assert(nv[x] == ov[x] && nv[y] == cv[i as int]);
                } else if x == p && y > p {
                    assert(nv[y] == ov[y - 1]);
                    if p < ov.len() {
                        assert(!rank_ge(qts, ql, ov[p as int], cv[i as int]));
                        assert(rank_ge(qts, ql, ov[p as int], ov[y - 1]) || p as int == y - 1);
                    }
                } else if x < p && y > p {
                    assert(nv[x] == ov[x] && nv[y] == ov[y - 1]);
                } else if x < p && y < p {
                    assert(nv[x] == ov[x] && nv[y] == ov[y]);
                } else if x > p && y > p {
                    assert(nv[x] == ov[x - 1] && nv[y] == ov[y - 1]);
                }
            }
            assert(scriptlet_views(cand@.take(i as int)).push(cv[i as int]) =~= scriptlet_views(
                cand@.take(i as int + 1),
            ));
            vstd::seq_lib::to_multiset_insert(ov, p as int, cv[i as int]);
            vstd::seq_lib::to_multiset_build(scriptlet_views(cand@.take(i as int)), cv[i as int]);
            assert(nv.to_multiset() == scriptlet_views(cand@.take(i as int + 1)).to_multiset());
        }
        i += 1;
    }
    proof {
        assert(scriptlet_views(cand@.take(cand@.len() as int)) =~= scriptlet_views(cand@));
    }
    out
}

/// The ranked results of one query over the table and its index.
///
/// The entries must mirror the table row for row, which is the store's
/// standing invariant.
pub fn match_scriptlets(
    scriptlets: &Vec<ScriptletData>,
    entries: &Vec<IndexEntry>,
    query: &str,
) -> (out: Vec<ScriptletData>)
    requires
        entries@.len() == scriptlets@.len(),
        forall|i: int|
            0 <= i < entries@.len() ==> #[trigger] entries@[i]@.tokens == entry_tokens(
                scriptlets@[i]@,
            ),
    ensures
        scriptlet_views(out@).to_multiset() == hits(
            scriptlet_views(scriptlets@),
            query_tokens(query@),
            lower(query@),
        ).to_multiset(),
        sorted_by_rank(query_tokens(query@), lower(query@), scriptlet_views(out@)),
{
    broadcast use vstd::seq_lib::group_seq_properties;

    let qs = query_tokens_of(query);
    let qlow = crate::text::lower_chars(query);
    let ghost qts = query_tokens(query@);
    let ghost ql = lower(query@);
    let ghost sv = scriptlet_views(scriptlets@);
    let ghost pred = |v: ScriptletView| score(qts, ql, v) >= RELEVANCE_CUTOFF;
    let mut cand: Vec<ScriptletData> = Vec::new();
    let mut i: usize = 0;
    proof {
        assert(sv.take(0) =~= Seq::<ScriptletView>::empty());
        assert(Seq::<ScriptletView>::empty().filter(pred) =~= Seq::<ScriptletView>::empty());
    }
    while i < scriptlets.len()
        invariant
            0 <= i <= scriptlets@.len(),
            qts == char_views(qs@),
            ql == qlow@,
            sv == scriptlet_views(scriptlets@),
            entries@.len() == scriptlets@.len(),
            forall|k: int|
                0 <= k < entries@.len() ==> #[trigger] entries@[k]@.tokens == entry_tokens(
                    scriptlets@[k]@,
                ),
            pred == (|v: ScriptletView| score(qts, ql, v) >= RELEVANCE_CUTOFF),
            scriptlet_views(cand@) == sv.take(i as int).filter(pred),
        decreases scriptlets.len() - i,
    {
        proof {
            assert(entries@[i as int]@.tokens == entry_tokens(scriptlets@[i as int]@));
            assert(entries@[i as int]@.tokens == char_views(entries@[i as int].tokens@));
        }
        let r = score_of(&qs, &qlow, &entries[i].tokens, &scriptlets[i]);
        let ghost before = scriptlet_views(cand@);
        proof {
            assert(r as int == score(qts, ql, sv[i as int]));
            assert(pred(sv[i as int]) == (score(qts, ql, sv[i as int]) >= RELEVANCE_CUTOFF));
        }
        if r >= RELEVANCE_CUTOFF as u128 {
            cand.push(scriptlets[i].clone());
            proof {
                assert(scriptlet_views(cand@) =~= before.push(sv[i as int]));
            }
        }
        proof {
            assert(sv.take(i as int).push(sv[i as int]) =~= sv.take(i as int + 1));
            sv.take(i as int).lemma_filter_push(sv[i as int], pred);
        }
        i += 1;
    }
    proof {
        assert(sv.take(sv.len() as int) =~= sv);
    }
    sort_by_rank(&qs, &qlow, cand)
}

} // verus!
