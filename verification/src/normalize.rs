//! The normalizer: turns a raw invocation string into an ordered sequence of
//! argument tokens, substitutes file-path-looking tokens with the `$FILE`
//! placeholder, and derives the tool names referenced by the invocation
//! (one per non-empty segment of a `|` pipeline).
//!
//! Tokenization follows shell-like quoting: a double-quoted run, a
//! single-quoted run, or a maximal run of non-whitespace characters is one
//! token, with the quote characters kept as typed. Malformed quoting
//! degrades to whitespace-run tokens; nothing here fails.

use vstd::prelude::*;

use crate::text::{
    alnum_char, chars_of, is_alnum, is_ws, string_of, ws_char,
};

verus! {

/// Length of the maximal leading run of non-whitespace characters.
pub open spec fn nonws_len(s: Seq<char>) -> int
    decreases s.len(),
{
    if s.len() == 0 || is_ws(s[0]) {
        0
    } else {
        1 + nonws_len(s.skip(1))
    }
}

/// Length of the maximal leading run of whitespace characters.
pub open spec fn ws_len(s: Seq<char>) -> int
    decreases s.len(),
{
    if s.len() == 0 || !is_ws(s[0]) {
        0
    } else {
        1 + ws_len(s.skip(1))
    }
}

/// Index of the first occurrence of `c` in `s`, or `s.len()` if absent.
pub open spec fn find_char(s: Seq<char>, c: char) -> int
    decreases s.len(),
{
    if s.len() == 0 {
        0
    } else if s[0] == c {
        0
    } else {
        1 + find_char(s.skip(1), c)
    }
}

pub proof fn lemma_nonws_len(s: Seq<char>)
    ensures
        0 <= nonws_len(s) <= s.len(),
        forall|j: int| 0 <= j < nonws_len(s) ==> !is_ws(#[trigger] s[j]),
        nonws_len(s) < s.len() ==> is_ws(s[nonws_len(s)]),
    decreases s.len(),
{
    if s.len() == 0 || is_ws(s[0]) {
    } else {
        lemma_nonws_len(s.skip(1));
        assert forall|j: int| 0 <= j < nonws_len(s) implies !is_ws(#[trigger] s[j]) by {
            if j >= 1 {
                assert(!is_ws(s.skip(1)[j - 1]));
            }
        }
        if nonws_len(s) < s.len() {
            assert(is_ws(s.skip(1)[nonws_len(s) - 1]));
        }
    }
}

pub proof fn lemma_ws_len(s: Seq<char>)
    ensures
        0 <= ws_len(s) <= s.len(),
        forall|j: int| 0 <= j < ws_len(s) ==> is_ws(#[trigger] s[j]),
        ws_len(s) < s.len() ==> !is_ws(s[ws_len(s)]),
    decreases s.len(),
{
    if s.len() == 0 || !is_ws(s[0]) {
    } else {
        lemma_ws_len(s.skip(1));
        assert forall|j: int| 0 <= j < ws_len(s) implies is_ws(#[trigger] s[j]) by {
            if j >= 1 {
                assert(is_ws(s.skip(1)[j - 1]));
            }
        }
        if ws_len(s) < s.len() {
            assert(!is_ws(s.skip(1)[ws_len(s) - 1]));
        }
    }
}

pub proof fn lemma_find_char(s: Seq<char>, c: char)
    ensures
        0 <= find_char(s, c) <= s.len(),
        forall|j: int| 0 <= j < find_char(s, c) ==> #[trigger] s[j] != c,
        find_char(s, c) < s.len() ==> s[find_char(s, c)] == c,
    decreases s.len(),
{
    if s.len() == 0 || s[0] == c {
    } else {
        lemma_find_char(s.skip(1), c);
        assert forall|j: int| 0 <= j < find_char(s, c) implies #[trigger] s[j] != c by {
            if j >= 1 {
                assert(s.skip(1)[j - 1] != c);
            }
        }
        if find_char(s, c) < s.len() {
            assert(s.skip(1)[find_char(s, c) - 1] == c);
        }
    }
}

/// First index at or after `from` holding a whitespace character, or the
/// length if there is none.
pub fn scan_nonws(cs: &Vec<char>, from: usize) -> (e: usize)
    requires
        from <= cs.len(),
    ensures
        from <= e <= cs.len(),
        e - from == nonws_len(cs@.skip(from as int)),
{
    let mut e = from;
    while e < cs.len() && !ws_char(cs[e])
        invariant
            from <= e <= cs.len(),
            forall|j: int| from <= j < e ==> !is_ws(#[trigger] cs@[j]),
        decreases cs.len() - e,
    {
        e += 1;
    }
    proof {
        let t = cs@.skip(from as int);
        lemma_nonws_len(t);
        assert(forall|j: int| 0 <= j < t.len() ==> #[trigger] t[j] == cs@[from + j]);
        assert(e - from == nonws_len(t)) by {
            if e - from < nonws_len(t) {
                assert(!is_ws(t[e - from]));
                assert(is_ws(cs@[e as int]));
            }
            if e - from > nonws_len(t) {
                assert(is_ws(t[nonws_len(t)]));
                assert(!is_ws(cs@[from + nonws_len(t)]));
            }
        }
    }
    e
}

/// First index at or after `from` holding a non-whitespace character, or
/// the length if there is none.
pub fn scan_ws(cs: &Vec<char>, from: usize) -> (e: usize)
    requires
        from <= cs.len(),
    ensures
        from <= e <= cs.len(),
        e - from == ws_len(cs@.skip(from as int)),
{
    let mut e = from;
    while e < cs.len() && ws_char(cs[e])
        invariant
            from <= e <= cs.len(),
            forall|j: int| from <= j < e ==> is_ws(#[trigger] cs@[j]),
        decreases cs.len() - e,
    {
        e += 1;
    }
    proof {
        let t = cs@.skip(from as int);
        lemma_ws_len(t);
        assert(forall|j: int| 0 <= j < t.len() ==> #[trigger] t[j] == cs@[from + j]);
        assert(e - from == ws_len(t)) by {
            if e - from < ws_len(t) {
                assert(is_ws(t[e - from]));
                assert(!is_ws(cs@[e as int]));
            }
            if e - from > ws_len(t) {
                assert(!is_ws(t[ws_len(t)]));
                assert(is_ws(cs@[from + ws_len(t)]));
            }
        }
    }
    e
}

/// First index at or after `from` holding `c`, or the length if absent.
pub fn scan_for(cs: &Vec<char>, from: usize, c: char) -> (e: usize)
    requires
        from <= cs.len(),
    ensures
        from <= e <= cs.len(),
        e - from == find_char(cs@.skip(from as int), c),
{
    let mut e = from;
    while e < cs.len() && cs[e] != c
        invariant
            from <= e <= cs.len(),
            forall|j: int| from <= j < e ==> #[trigger] cs@[j] != c,
        decreases cs.len() - e,
    {
        e += 1;
    }
    proof {
        let t = cs@.skip(from as int);
        lemma_find_char(t, c);
        assert(forall|j: int| 0 <= j < t.len() ==> #[trigger] t[j] == cs@[from + j]);
        assert(e - from == find_char(t, c)) by {
            if e - from < find_char(t, c) {
                assert(t[e - from] != c);
                assert(cs@[e as int] == c);
            }
            if e - from > find_char(t, c) {
                assert(t[find_char(t, c)] == c);
                assert(cs@[from + find_char(t, c)] != c);
            }
        }
    }
    e
}

/// The characters of `cs` between `a` and `b`.
pub fn subrange_vec(cs: &Vec<char>, a: usize, b: usize) -> (r: Vec<char>)
    requires
        a <= b <= cs.len(),
    ensures
        r@ == cs@.subrange(a as int, b as int),
{
    let mut r: Vec<char> = Vec::new();
    let mut i = a;
    while i < b
        invariant
            a <= i <= b <= cs.len(),
            r@ == cs@.subrange(a as int, i as int),
        decreases b - i,
    {
        r.push(cs[i]);
        proof {
            assert(cs@.subrange(a as int, i as int).push(cs@[i as int]) =~= cs@.subrange(
                a as int,
                i as int + 1,
            ));
        }
        i += 1;
    }
    r
}

/// Length of the token starting at the head of `s`: a quoted run when the
/// head is a quote that is closed later, otherwise the maximal run of
/// non-whitespace characters.
pub open spec fn token_len(s: Seq<char>) -> int
    recommends
        s.len() > 0,
        !is_ws(s[0]),
{
    if s[0] == '"' || s[0] == '\'' {
        let j = find_char(s.skip(1), s[0]);
        if j < s.len() - 1 {
            j + 2
        } else {
            nonws_len(s)
        }
    } else {
        nonws_len(s)
    }
}

pub proof fn lemma_token_len(s: Seq<char>)
    requires
        s.len() > 0,
        !is_ws(s[0]),
    ensures
        1 <= token_len(s) <= s.len(),
{
    lemma_nonws_len(s);
    if s[0] == '"' || s[0] == '\'' {
        lemma_find_char(s.skip(1), s[0]);
    }
}

/// The tokens of a raw invocation, in order.
pub open spec fn spec_tokenize(s: Seq<char>) -> Seq<Seq<char>>
    decreases s.len(),
    when true
    via spec_tokenize_dec
{
    if s.len() == 0 {
        Seq::empty()
    } else if is_ws(s[0]) {
        spec_tokenize(s.skip(1))
    } else {
        seq![s.take(token_len(s))] + spec_tokenize(s.skip(token_len(s)))
    }
}

#[via_fn]
proof fn spec_tokenize_dec(s: Seq<char>) {
    if s.len() > 0 && !is_ws(s[0]) {
        lemma_token_len(s);
    }
}

/// The views of a vector of strings.
pub open spec fn str_views(ts: Seq<String>) -> Seq<Seq<char>> {
    ts.map_values(|t: String| t@)
}

/// Index one past the token that starts at `i`.
fn token_end(cs: &Vec<char>, i: usize) -> (e: usize)
    requires
        i < cs.len(),
        !is_ws(cs@[i as int]),
    ensures
        i < e <= cs.len(),
        e - i == token_len(cs@.skip(i as int)),
{
    proof {
        lemma_token_len(cs@.skip(i as int));
    }
    let c = cs[i];
    if c == '"' || c == '\'' {
        let k = scan_for(cs, i + 1, c);
        proof {
            assert(cs@.skip(i as int).skip(1) =~= cs@.skip(i as int + 1));
        }
        if k < cs.len() {
            k + 1
        } else {
            scan_nonws(cs, i)
        }
    } else {
        scan_nonws(cs, i)
    }
}

/// Split a raw invocation into tokens, shell-style.
pub fn tokenize(s: &str) -> (r: Vec<String>)
    ensures
        str_views(r@) == spec_tokenize(s@),
{
    let cs = chars_of(s);
    let mut out: Vec<String> = Vec::new();
    let mut i: usize = 0;
    proof {
        assert(s@.skip(0) =~= s@);
    }
    while i < cs.len()
        invariant
            0 <= i <= cs.len(),
            cs@ == s@,
            str_views(out@) + spec_tokenize(s@.skip(i as int)) =~= spec_tokenize(s@),
        decreases cs.len() - i,
    {
        if ws_char(cs[i]) {
            proof {
                assert(s@.skip(i as int).skip(1) =~= s@.skip(i as int + 1));
            }
            i += 1;
        } else {
            let e = token_end(&cs, i);
            let tok = string_of(&subrange_vec(&cs, i, e));
            out.push(tok);
            proof {
                let t = s@.skip(i as int);
                assert(t.take(token_len(t)) =~= s@.subrange(i as int, e as int));
                assert(t.skip(token_len(t)) =~= s@.skip(e as int));
                assert(str_views(out@) =~= str_views(out@.drop_last()).push(tok@));
            }
            i = e;
        }
    }
    proof {
        assert(spec_tokenize(s@.skip(s@.len() as int)) =~= Seq::<Seq<char>>::empty());
        assert(str_views(out@) =~= spec_tokenize(s@));
    }
    out
}

/// A token that looks like a file path: one or more characters, a literal
/// dot, then one or more letters or digits running to the end of the token.
pub open spec fn is_file_token(t: Seq<char>) -> bool {
    exists|i: int|
        1 <= i < t.len() - 1 && #[trigger] t[i] == '.' && (forall|j: int|
            i < j < t.len() ==> is_alnum(#[trigger] t[j]))
}

/// What a token becomes in the stored command: file-path-looking tokens are
/// replaced by the placeholder, everything else is kept as typed.
pub open spec fn normalize_token(t: Seq<char>) -> Seq<char> {
    if is_file_token(t) {
        "$FILE"@
    } else {
        t
    }
}

/// Whether the token looks like a file path.
pub fn is_file_arg(cs: &Vec<char>) -> (r: bool)
    ensures
        r == is_file_token(cs@),
{
    let n = cs.len();
    let mut k = n;
    while k > 0 && alnum_char(cs[k - 1])
        invariant
            0 <= k <= n,
            n == cs@.len(),
            forall|j: int| k <= j < n ==> is_alnum(#[trigger] cs@[j]),
        decreases k,
    {
        k -= 1;
    }
    if k > 1 && cs[k - 1] == '.' && k < n {
        proof {
            assert(1 <= k - 1 < cs@.len() - 1 && cs@[k - 1] == '.' && (forall|j: int|
                k - 1 < j < cs@.len() ==> is_alnum(#[trigger] cs@[j])));
        }
        true
    } else {
        proof {
            assert(!is_file_token(cs@)) by {
                if is_file_token(cs@) {
                    let i = choose|i: int|
                        1 <= i < cs@.len() - 1 && #[trigger] cs@[i] == '.' && (forall|j: int|
                            i < j < cs@.len() ==> is_alnum(#[trigger] cs@[j]));
                    if k == 0 {
                        assert(is_alnum(cs@[i]));
                    } else if i < k - 1 {
                        assert(is_alnum(cs@[k - 1]));
                    } else if i > k - 1 {
                        assert(is_alnum(cs@[i]));
                    }
                }
            }
        }
        false
    }
}

/// Replace a file-path-looking argument with the placeholder.
pub fn replace_file(arg: String) -> (r: String)
    ensures
        r@ == normalize_token(arg@),
{
    let cs = chars_of(arg.as_str());
    if is_file_arg(&cs) {
        String::from_str("$FILE")
    } else {
        arg
    }
}

/// Apply the placeholder rule to every token.
pub fn replace_variables(scriptlet: Vec<String>) -> (r: Vec<String>)
    ensures
        str_views(r@) == spec_tokenize_normalized(str_views(scriptlet@)),
{
    let ghost orig = str_views(scriptlet@);
    let mut out: Vec<String> = Vec::new();
    let mut i: usize = 0;
    while i < scriptlet.len()
        invariant
            0 <= i <= scriptlet@.len(),
            orig == str_views(scriptlet@),
            out@.len() == i,
            forall|j: int| 0 <= j < i ==> #[trigger] out@[j]@ == normalize_token(orig[j]),
        decreases scriptlet.len() - i,
    {
        let t = scriptlet[i].clone();
        out.push(replace_file(t));
        i += 1;
    }
    proof {
        assert(str_views(out@) =~= spec_tokenize_normalized(orig));
    }
    out
}

/// The normalized form of a token sequence.
pub open spec fn spec_tokenize_normalized(ts: Seq<Seq<char>>) -> Seq<Seq<char>> {
    ts.map_values(|t: Seq<char>| normalize_token(t))
}

/// The tokens rejoined with single spaces.
pub open spec fn join_spaces(ts: Seq<Seq<char>>) -> Seq<char>
    decreases ts.len(),
{
    if ts.len() == 0 {
        Seq::empty()
    } else if ts.len() == 1 {
        ts[0]
    } else {
        ts[0] + seq![' '] + join_spaces(ts.drop_first())
    }
}

pub proof fn lemma_join_push(ts: Seq<Seq<char>>, t: Seq<char>)
    ensures
        ts.len() == 0 ==> join_spaces(ts.push(t)) == t,
        ts.len() > 0 ==> join_spaces(ts.push(t)) == join_spaces(ts) + seq![' '] + t,
    decreases ts.len(),
{
    if ts.len() == 0 {
        assert(ts.push(t)[0] =~= t);
    } else if ts.len() == 1 {
        assert(ts.push(t).drop_first() =~= seq![t]);
        assert(ts.push(t)[0] == ts[0]);
        assert(join_spaces(seq![t]) == t);
        assert(join_spaces(ts.push(t)) == ts[0] + seq![' '] + t);
        assert(join_spaces(ts) + seq![' '] + t =~= ts[0] + seq![' '] + t);
    } else {
        lemma_join_push(ts.drop_first(), t);
        assert(ts.push(t).drop_first() =~= ts.drop_first().push(t));
        assert(join_spaces(ts) + seq![' '] + t =~= ts[0] + seq![' '] + (join_spaces(
            ts.drop_first(),
        ) + seq![' '] + t));
    }
}

/// Join tokens with single spaces.
pub fn join_tokens(ts: &Vec<String>) -> (r: String)
    ensures
        r@ == join_spaces(str_views(ts@)),
{
    let mut r = String::new();
    let mut i: usize = 0;
    while i < ts.len()
        invariant
            0 <= i <= ts@.len(),
            r@ == join_spaces(str_views(ts@).take(i as int)),
        decreases ts.len() - i,
    {
        if i > 0 {
            crate::text::push_char(&mut r, ' ');
        }
        r.append(ts[i].as_str());
        proof {
            let views = str_views(ts@);
            lemma_join_push(views.take(i as int), views[i as int]);
            assert(views.take(i as int).push(views[i as int]) =~= views.take(i as int + 1));
            if i > 0 {
                assert(r@ =~= join_spaces(views.take(i as int)) + seq![' '] + views[i as int]);
            } else {
                assert(r@ =~= views[0]);
            }
        }
        i += 1;
    }
    proof {
        assert(str_views(ts@).take(ts@.len() as int) =~= str_views(ts@));
    }
    r
}

/// The tool name contributed by one pipeline segment: the first
/// whitespace-delimited word, if the segment is not blank.
pub open spec fn first_word_seq(seg: Seq<char>) -> Seq<Seq<char>> {
    let t = seg.skip(ws_len(seg));
    if t.len() == 0 {
        Seq::empty()
    } else {
        seq![t.take(nonws_len(t))]
    }
}

/// The tool names referenced by a raw invocation: the first word of every
/// non-blank segment of the `|` pipeline, in order, duplicates kept.
pub open spec fn spec_tools(s: Seq<char>) -> Seq<Seq<char>>
    decreases s.len(),
    when true
    via spec_tools_dec
{
    let k = find_char(s, '|');
    if k < s.len() {
        first_word_seq(s.take(k)) + spec_tools(s.skip(k + 1))
    } else {
        first_word_seq(s)
    }
}

#[via_fn]
proof fn spec_tools_dec(s: Seq<char>) {
    lemma_find_char(s, '|');
}

/// The first word of one segment, as a vector of strings.
fn first_word_vec(seg: &Vec<char>) -> (r: Vec<String>)
    ensures
        str_views(r@) == first_word_seq(seg@),
{
    let a = scan_ws(seg, 0);
    proof {
        assert(seg@.skip(0) =~= seg@);
    }
    let mut r: Vec<String> = Vec::new();
    if a < seg.len() {
        let ghost t = seg@.skip(a as int);
        let b = scan_nonws(seg, a);
        proof {
            lemma_nonws_len(t);
            assert(t.take(nonws_len(t)) =~= seg@.subrange(a as int, b as int));
        }
        r.push(string_of(&subrange_vec(seg, a, b)));
        proof {
            assert(str_views(r@) =~= first_word_seq(seg@));
        }
    } else {
        proof {
            assert(str_views(r@) =~= first_word_seq(seg@));
        }
    }
    r
}

/// Extract the tool names of a raw invocation.
pub fn extract_tools(s: &str) -> (r: Vec<String>)
    ensures
        str_views(r@) == spec_tools(s@),
{
    let cs = chars_of(s);
    let mut out: Vec<String> = Vec::new();
    let mut pos: usize = 0;
    proof {
        assert(s@.skip(0) =~= s@);
    }
    loop
        invariant_except_break
            str_views(out@) + spec_tools(s@.skip(pos as int)) =~= spec_tools(s@),
        invariant
            0 <= pos <= cs.len(),
            cs@ == s@,
        ensures
            str_views(out@) =~= spec_tools(s@),
        decreases cs.len() - pos,
    {
        let ghost t = s@.skip(pos as int);
        let k = scan_for(&cs, pos, '|');
        proof {
            lemma_find_char(t, '|');
            assert(t.take(find_char(t, '|')) =~= s@.subrange(pos as int, k as int));
            assert(t.take(t.len() as int) =~= t);
        }
        let seg = subrange_vec(&cs, pos, k);
        let mut word = first_word_vec(&seg);
        let ghost out_before = out@;
        let ghost word_views = str_views(word@);
        if word.len() > 0 {
            let w = word.pop().unwrap();
            out.push(w);
        }
        proof {
            assert(str_views(out@) =~= str_views(out_before) + word_views);
        }
        if k == cs.len() {
            proof {
                assert(spec_tools(t) == first_word_seq(seg@));
                assert(str_views(out@) =~= spec_tools(s@));
            }
            break ;
        }
        proof {
            assert(t.skip(find_char(t, '|') + 1) =~= s@.skip(k as int + 1));
            assert(spec_tools(t) == first_word_seq(seg@) + spec_tools(s@.skip(k as int + 1)));
        }
        pos = k + 1;
    }
    out
}

/// The stored command text of a raw invocation: its tokens, file-path
/// arguments replaced by the placeholder, rejoined with single spaces.
pub open spec fn spec_command(s: Seq<char>) -> Seq<char> {
    join_spaces(spec_tokenize_normalized(spec_tokenize(s)))
}

/// Normalize a raw invocation: the tool names it references and the
/// placeholder-substituted command text to store.
pub fn parse_scriptlet(raw: &str) -> (r: (Vec<String>, String))
    ensures
        str_views(r.0@) == spec_tools(raw@),
        r.1@ == spec_command(raw@),
{
    let tools = extract_tools(raw);
    let tokens = tokenize(raw);
    let tokens = replace_variables(tokens);
    let command = join_tokens(&tokens);
    (tools, command)
}

} // verus!
