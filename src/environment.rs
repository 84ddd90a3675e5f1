//! Directories taken from a `;`-separated include-path environment variable.
use vstd::prelude::*;
use crate::error::IncludeDirsError;
use crate::parse::{lemma_split_pieces_lack_sep, strings_view};
use crate::text::{
    contains_seq, join_on, lemma_normalize_idempotent, lemma_split_join, lemma_split_pieces_occur,
    occurs_at, optional_view, chars_of, normalize, normalize_chars, split_chars, split_on, string_of, views_of};

verus! {

/// The directories that a variable value lists: its `;`-separated pieces,
/// empty ones dropped, backslashes turned into forward slashes.
pub open spec fn variable_dirs(value: Seq<char>) -> Seq<Seq<char>> {
    listed_pieces(split_on(value, ';'))
}

/// The non-empty pieces of `parts`, with backslashes turned into forward slashes.
pub open spec fn listed_pieces(parts: Seq<Seq<char>>) -> Seq<Seq<char>> {
    parts.filter(|p: Seq<char>| p.len() > 0).map_values(|p: Seq<char>| normalize(p))
}

/// What reading the directories from a variable gives: an error when it is
/// unset, else its listed directories (possibly none).
pub open spec fn variable_result_is(
    r: Result<Vec<String>, IncludeDirsError>,
    value: Option<Seq<char>>,
) -> bool {
    match value {
        None => r == Err::<Vec<String>, IncludeDirsError>(
            IncludeDirsError::EnvironmentVariableMissing,
        ),
        Some(v) => r is Ok && strings_view(r->Ok_0@) == variable_dirs(v),
    }
}

/// Of pieces without backslashes, normalizing the non-empty ones changes nothing.
proof fn lemma_plain_pieces_kept(parts: Seq<Seq<char>>)
    requires
        forall|k: int| 0 <= k < parts.len() ==> !(#[trigger] parts[k]).contains('\\'),
    ensures
        listed_pieces(parts) == parts.filter(|p: Seq<char>| p.len() > 0),
    decreases parts.len(),
{
    reveal(Seq::filter);
    let keep = |p: Seq<char>| p.len() > 0;
    let norm = |p: Seq<char>| normalize(p);
    if parts.len() == 0 {
        assert(parts.filter(keep).map_values(norm) =~= parts.filter(keep));
    } else {
        let init = parts.drop_last();
        assert forall|k: int| 0 <= k < init.len() implies !(#[trigger] init[k]).contains('\\') by {
            assert(init[k] == parts[k]);
        }
        lemma_plain_pieces_kept(init);
        let f = init.filter(keep);
        let l = parts.last();
        if l.len() > 0 {
            assert(!parts[parts.len() - 1].contains('\\'));
            lemma_normalize_idempotent(l);
            assert(f.push(l).map_values(norm) =~= f.map_values(norm).push(normalize(l)));
        }
    }
}

/// Non-empty pieces all pass the filter that drops empty ones.
proof fn lemma_nonempty_pieces_kept(d: Seq<Seq<char>>)
    requires
        forall|k: int| 0 <= k < d.len() ==> (#[trigger] d[k]).len() > 0,
    ensures
        d.filter(|p: Seq<char>| p.len() > 0) == d,
    decreases d.len(),
{
    reveal(Seq::filter);
    if d.len() > 0 {
        let init = d.drop_last();
        assert forall|k: int| 0 <= k < init.len() implies (#[trigger] init[k]).len() > 0 by {
            assert(init[k] == d[k]);
        }
        lemma_nonempty_pieces_kept(init);
        assert(d[d.len() - 1].len() > 0);
        assert(init.push(d.last()) =~= d);
    }
}

/// Each directory listed from pieces without `;` is non-empty and holds
/// neither `;` nor a backslash.
proof fn lemma_listed_shape(parts: Seq<Seq<char>>)
    requires
        forall|k: int| 0 <= k < parts.len() ==> !(#[trigger] parts[k]).contains(';'),
    ensures
        forall|k: int|
            0 <= k < listed_pieces(parts).len() ==> (#[trigger] listed_pieces(parts)[k]).len() > 0
                && !listed_pieces(parts)[k].contains(';') && !listed_pieces(parts)[k].contains(
                '\\',
            ),
    decreases parts.len(),
{
    reveal(Seq::filter);
    if parts.len() > 0 {
        let init = parts.drop_last();
        assert forall|k: int| 0 <= k < init.len() implies !(#[trigger] init[k]).contains(';') by {
            assert(init[k] == parts[k]);
        }
        lemma_listed_shape(init);
        let l = parts.last();
        let prev = listed_pieces(init);
        let cur = listed_pieces(parts);
        if l.len() > 0 {
            assert(!parts[parts.len() - 1].contains(';'));
            lemma_normalize_idempotent(l);
            assert(cur =~= prev.push(normalize(l)));
            assert forall|j: int| 0 <= j < normalize(l).len() implies normalize(l)[j] != ';' by {
                assert(l[j] != ';');
            }
            assert forall|k: int| 0 <= k < cur.len() implies (#[trigger] cur[k]).len() > 0
                && !cur[k].contains(';') && !cur[k].contains('\\') by {
                if k < prev.len() {
                    assert(cur[k] == prev[k]);
                }
            }
        } else {
            assert(cur =~= prev);
        }
    }
}

/// A value without backslashes lists its non-empty `;`-separated pieces
/// unchanged: normalizing them is a no-op.
pub proof fn lemma_plain_value_pieces(v: Seq<char>)
    requires
        !v.contains('\\'),
    ensures
        variable_dirs(v) == split_on(v, ';').filter(|p: Seq<char>| p.len() > 0),
{
    let parts = split_on(v, ';');
    lemma_split_pieces_occur(v, ';');
    assert forall|k: int| 0 <= k < parts.len() implies !(#[trigger] parts[k]).contains('\\') by {
        if parts[k].contains('\\') {
            let j = choose|j: int| 0 <= j < parts[k].len() && parts[k][j] == '\\';
            let a = choose|a: int| occurs_at(v, parts[k], a);
            assert(v.subrange(a, a + parts[k].len())[j] == v[a + j]);
        }
    }
    lemma_plain_pieces_kept(parts);
}

/// Listing directories, joining them with `;` and listing that value again
/// gives the same directories.
pub proof fn lemma_variable_round_trip(v: Seq<char>)
    ensures
        variable_dirs(join_on(variable_dirs(v), ';')) == variable_dirs(v),
{
    let d = variable_dirs(v);
    lemma_split_pieces_lack_sep(v, ';');
    lemma_listed_shape(split_on(v, ';'));
    assert forall|k: int| 0 <= k < d.len() implies !(#[trigger] d[k]).contains('\\') by {}
    assert forall|k: int| 0 <= k < d.len() implies !(#[trigger] d[k]).contains(';') by {}
    assert forall|k: int| 0 <= k < d.len() implies (#[trigger] d[k]).len() > 0 by {}
    if d.len() == 0 {
        reveal(Seq::filter);
        let e = Seq::<char>::empty();
        assert(join_on(d, ';') == e);
        assert(split_on(e, ';') == seq![e]);
        assert(seq![e].drop_last() =~= Seq::<Seq<char>>::empty());
        assert(Seq::<Seq<char>>::empty().filter(|p: Seq<char>| p.len() > 0) =~= Seq::<
            Seq<char>,
        >::empty());
        assert(seq![e].filter(|p: Seq<char>| p.len() > 0) =~= Seq::<Seq<char>>::empty());
        assert(variable_dirs(join_on(d, ';')) =~= d);
    } else {
        lemma_split_join(d, ';');
        lemma_nonempty_pieces_kept(d);
        lemma_plain_pieces_kept(d);
    }
}

/// Splits a variable value into its directories, in order: pieces between
/// `;` separators, empty ones dropped, backslashes turned into forward slashes.
pub fn split_include_variable(value: &str) -> (r: Vec<String>)
    ensures
        strings_view(r@) == variable_dirs(value@),
{
    let text = chars_of(value);
    let parts = split_chars(text.as_slice(), ';');
    let ghost all = views_of(parts@);
    let ghost keep = |p: Seq<char>| p.len() > 0;
    let ghost norm = |p: Seq<char>| normalize(p);
    let mut r: Vec<String> = Vec::new();
    let mut i: usize = 0;
    proof {
        reveal(Seq::filter);
    }
    assert(all.take(0).filter(keep) =~= Seq::<Seq<char>>::empty());
    assert(strings_view(r@) =~= all.take(0).filter(keep).map_values(norm));
    while i < parts.len()
        invariant
            all == views_of(parts@),
            all == split_on(value@, ';'),
            keep == (|p: Seq<char>| p.len() > 0),
            norm == (|p: Seq<char>| normalize(p)),
            i <= parts@.len(),
            strings_view(r@) == all.take(i as int).filter(keep).map_values(norm),
        decreases parts@.len() - i,
    {
        let part = &parts[i];
        assert(all[i as int] == part@);
        let ghost before = all.take(i as int).filter(keep);
        assert(all.take(i + 1).drop_last() =~= all.take(i as int));
        assert(all.take(i + 1).last() == part@);
        proof {
            reveal(Seq::filter);
        }
        if part.len() > 0 {
            let n = normalize_chars(part.as_slice());
            let ghost old_r = strings_view(r@);
            r.push(string_of(n.as_slice()));
            assert(all.take(i + 1).filter(keep) == before.push(part@));
            assert(strings_view(r@) =~= old_r.push(normalize(part@)));
            assert(before.push(part@).map_values(norm) =~= before.map_values(norm).push(
                norm(part@),
            ));
            assert(strings_view(r@) =~= before.push(part@).map_values(norm));
        } else {
            assert(all.take(i + 1).filter(keep) == before);
        }
        i = i + 1;
    }
    assert(all.take(parts@.len() as int) =~= all);
    r
}

/// Reads the directories from the include-path variable's value, `None` when
/// the variable is unset. An empty list is a success here.
pub fn get_windows_include_dirs(include_var: Option<&str>) -> (r: Result<
    Vec<String>,
    IncludeDirsError,
>)
    ensures
        variable_result_is(r, optional_view(include_var)),
{
    match include_var {
        None => Err(IncludeDirsError::EnvironmentVariableMissing),
        Some(v) => Ok(split_include_variable(v)),
    }
}

} // verus!
