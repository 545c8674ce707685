//! Plain-text rendering of scriptlet listings: the lines a front end
//! prints, in order. Four lines per scriptlet: "name (id)", the
//! description, the command, and a blank separator.

use vstd::prelude::*;

use crate::data_types::{scriptlet_views, ScriptletData, ScriptletView};
use crate::error::DocuError;
use crate::normalize::{join_tokens, str_views};
use crate::search::{hits, query_tokens, sorted_by_rank};
use crate::store::Store;
use crate::text::push_char;

verus! {

/// The decimal digits of a non-negative number, most significant first.
pub open spec fn dec_digits(n: int) -> Seq<char>
    decreases n,
{
    if n <= 9 {
        seq![(48 + n) as char]
    } else {
        dec_digits(n / 10).push((48 + n % 10) as char)
    }
}

/// The decimal form of a signed number.
pub open spec fn spec_i64_string(n: int) -> Seq<char> {
    if n < 0 {
        seq!['-'] + dec_digits(-n)
    } else {
        dec_digits(n)
    }
}

fn dec_digits_exec(n: u64) -> (r: Vec<char>)
    ensures
        r@ == dec_digits(n as int),
    decreases n,
{
    if n <= 9 {
        let c = ((48 + n) as u8) as char;
        let mut r: Vec<char> = Vec::new();
        r.push(c);
        proof {
            assert(r@ =~= dec_digits(n as int));
        }
        r
    } else {
        let mut r = dec_digits_exec(n / 10);
        r.push(((48 + n % 10) as u8) as char);
        r
    }
}

/// The decimal form of a signed number, as a string.
pub fn i64_string(n: i64) -> (r: String)
    ensures
        r@ == spec_i64_string(n as int),
{
    let mut out = String::new();
    let m: u64;
    if n < 0 {
        push_char(&mut out, '-');
        if n == i64::MIN {
            m = 9223372036854775808u64;
        } else {
            m = (-n) as u64;
        }
    } else {
        m = n as u64;
    }
    let ds = dec_digits_exec(m);
    let tail = crate::text::string_of(&ds);
    out.append(tail.as_str());
    proof {
        if n < 0 {
            assert(out@ =~= seq!['-'] + dec_digits(m as int));
        } else {
            assert(out@ =~= dec_digits(n as int));
        }
    }
    out
}

/// The heading line of one scriptlet: its name, then its id in parentheses.
pub open spec fn spec_header(v: ScriptletView) -> Seq<char> {
    v.name + " ("@ + spec_i64_string(v.id) + ")"@
}

/// The display lines of a listing: four per scriptlet, in listing order.
pub open spec fn spec_lines(svs: Seq<ScriptletView>) -> Seq<Seq<char>>
    decreases svs.len(),
{
    if svs.len() == 0 {
        Seq::empty()
    } else {
        seq![spec_header(svs[0]), svs[0].description, svs[0].command, Seq::<char>::empty()]
            + spec_lines(svs.drop_first())
    }
}

fn header_line(d: &ScriptletData) -> (r: String)
    ensures
        r@ == spec_header(d@),
{
    let mut h = d.name.clone();
    h.append(" (");
    let ds = i64_string(d.id);
    h.append(ds.as_str());
    h.append(")");
    proof {
        assert(h@ =~= spec_header(d@));
    }
    h
}

/// The display lines of the given records, in their order.
fn render_lines(rows: &Vec<ScriptletData>) -> (r: Vec<String>)
    ensures
        str_views(r@) == spec_lines(scriptlet_views(rows@)),
{
    let ghost sv = scriptlet_views(rows@);
    let mut out: Vec<String> = Vec::new();
    let mut i: usize = 0;
    proof {
        assert(sv.skip(0) =~= sv);
    }
    while i < rows.len()
        invariant
            0 <= i <= rows@.len(),
            sv == scriptlet_views(rows@),
            str_views(out@) + spec_lines(sv.skip(i as int)) =~= spec_lines(sv),
        decreases rows.len() - i,
    {
        let ghost before = str_views(out@);
        out.push(header_line(&rows[i]));
        out.push(rows[i].description.clone());
        out.push(rows[i].command.clone());
        out.push(String::new());
        proof {
            assert(sv.skip(i as int)[0] == sv[i as int]);
            assert(sv.skip(i as int).drop_first() =~= sv.skip(i as int + 1));
            assert(str_views(out@) =~= before + seq![
                spec_header(sv[i as int]),
                sv[i as int].description,
                sv[i as int].command,
                Seq::<char>::empty(),
            ]);
            assert(str_views(out@) + spec_lines(sv.skip(i as int + 1)) =~= spec_lines(sv));
        }
        i += 1;
    }
    proof {
        assert(spec_lines(sv.skip(sv.len() as int)) =~= Seq::<Seq<char>>::empty());
        assert(str_views(out@) =~= spec_lines(sv));
    }
    out
}

/// The display lines of every stored scriptlet, newest first.
pub fn show_all_scriptlets(store: &Store) -> (r: Result<Vec<String>, DocuError>)
    ensures
        r is Ok,
        match r {
            Ok(lines) => str_views(lines@) == spec_lines(store@.scriptlets.reverse()),
            Err(_) => false,
        },
{
    let rows = match store.get_all_scriptlets() {
        Ok(rows) => rows,
        Err(e) => {
            return Err(e);
        },
    };
    Ok(render_lines(&rows))
}

/// The display lines of the scriptlets linked to one tool, newest first.
/// A name with no tool row is reported as [`DocuError::NotFound`]; a tool
/// with zero scriptlets yields an empty listing.
pub fn show_all_scriptlets_for_tool(store: &Store, tool_name: &str) -> (r: Result<
    Vec<String>,
    DocuError,
>)
    requires
        store@.inv(),
    ensures
        match r {
            Ok(lines) => crate::store::has_tool_named(store@.tools, tool_name@) && str_views(
                lines@,
            ) == spec_lines(
                crate::store::linked_scriptlets(
                    store@,
                    crate::store::tool_id_of(store@.tools, tool_name@),
                ).reverse(),
            ),
            Err(e) => e is NotFound && !crate::store::has_tool_named(store@.tools, tool_name@),
        },
{
    let rows = match store.get_scriptlets_for_tool(tool_name) {
        Ok(rows) => rows,
        Err(e) => {
            return Err(e);
        },
    };
    Ok(render_lines(&rows))
}

/// The display lines of a search: the terms are joined with single spaces
/// into one query, and the ranked results are rendered best match first.
pub fn show_searched_scriptlets(store: &Store, search: &Vec<String>) -> (r: Result<
    Vec<String>,
    DocuError,
>)
    requires
        store@.inv(),
    ensures
        r is Ok,
        match r {
            Ok(lines) => exists|rows: Seq<ScriptletView>|
                {
                    &&& rows.to_multiset() == hits(
                        store@.scriptlets,
                        query_tokens(crate::normalize::join_spaces(str_views(search@))),
                        crate::text::lower(crate::normalize::join_spaces(str_views(search@))),
                    ).to_multiset()
                    &&& sorted_by_rank(
                        query_tokens(crate::normalize::join_spaces(str_views(search@))),
                        crate::text::lower(crate::normalize::join_spaces(str_views(search@))),
                        rows,
                    )
                    &&& str_views(lines@) == spec_lines(rows)
                },
            Err(_) => false,
        },
{
    let query = join_tokens(search);
    let rows = match store.search_scriptlets(query.as_str()) {
        Ok(rows) => rows,
        Err(e) => {
            return Err(e);
        },
    };
    let lines = render_lines(&rows);
    proof {
        let ghost witness = scriptlet_views(rows@);
        assert(str_views(lines@) == spec_lines(witness));
    }
    Ok(lines)
}

} // verus!
