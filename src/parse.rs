//! Extraction of the search list from a gcc-like compiler's verbose output.
use vstd::prelude::*;
use crate::error::IncludeDirsError;
use crate::text::{
    chars_of, contains_chars, contains_seq, is_white, join_on, lemma_split_join, lemma_split_pieces_occur, lemma_trim_occurs,
    lemma_contains_trans, lemma_trim_idempotent, lemma_split_on_nonempty, normalize,
    normalize_chars, split_chars, split_on, string_of, trim, trim_chars, trim_end, trim_start,
    views_of,
};

verus! {

/// Text of the line that opens the search list.
pub open spec fn start_marker() -> Seq<char> {
    "#include <...> search starts here:"@
}

/// Text of the line that closes the search list.
pub open spec fn end_marker() -> Seq<char> {
    "End of search list."@
}

/// The annotation pattern `\s*\(.*\)$`: optional whitespace, then a
/// parenthesized run that reaches the end of the line.
pub open spec fn annotation_pattern() -> Seq<char> {
    seq!['\\', 's', '*', '\\', '(', '.', '*', '\\', ')', '$']
}

/// Index of the first `c` in `s`, or `s.len()` when there is none.
pub open spec fn first_index_of(s: Seq<char>, c: char) -> int
    decreases s.len(),
{
    if s.len() == 0 {
        0
    } else if s[0] == c {
        0
    } else {
        1 + first_index_of(s.drop_first(), c)
    }
}

/// Start of the run of whitespace that ends at index `p` of `s`.
pub open spec fn white_run_start(s: Seq<char>, p: int) -> int
    decreases p,
{
    if 0 < p <= s.len() && is_white(s[p - 1]) {
        white_run_start(s, p - 1)
    } else {
        p
    }
}

/// `s` without a trailing parenthesized annotation: when `s` ends with `)` and
/// holds a `(`, everything from the whitespace before its first `(` on is cut.
pub open spec fn without_annotation(s: Seq<char>) -> Seq<char> {
    if s.len() > 0 && s.last() == ')' && first_index_of(s, '(') < s.len() {
        s.take(white_run_start(s, first_index_of(s, '(')))
    } else {
        s
    }
}

/// A trimmed line of the search list with its annotation removed and trimmed again.
pub open spec fn cleaned(t: Seq<char>) -> Seq<char> {
    trim(without_annotation(t))
}

/// Where the scan stands relative to the search list.
#[derive(Clone, Copy, PartialEq, Eq, Structural)]
pub enum Section {
    /// Before the start marker.
    Outside,
    /// Between the start marker and the end marker.
    Inside,
    /// After the end marker: nothing more is read.
    Finished,
}

/// The effect of one line on the scan state (section, directories so far).
pub open spec fn step(st: (Section, Seq<Seq<char>>), line: Seq<char>) -> (Section, Seq<Seq<char>>) {
    let t = trim(line);
    if st.0 == Section::Finished {
        st
    } else if contains_seq(t, start_marker()) {
        (Section::Inside, st.1)
    } else if st.0 == Section::Inside && contains_seq(t, end_marker()) {
        (Section::Finished, st.1)
    } else if st.0 == Section::Inside && cleaned(t).len() > 0 {
        (Section::Inside, st.1.push(normalize(cleaned(t))))
    } else {
        st
    }
}

/// The scan state after reading `lines` in order from `st`.
pub open spec fn scan_from(st: (Section, Seq<Seq<char>>), lines: Seq<Seq<char>>) -> (
    Section,
    Seq<Seq<char>>,
)
    decreases lines.len(),
{
    if lines.len() == 0 {
        st
    } else {
        step(scan_from(st, lines.drop_last()), lines.last())
    }
}

/// The scan state at the start of the output.
pub open spec fn initial_state() -> (Section, Seq<Seq<char>>) {
    (Section::Outside, Seq::empty())
}

/// The directories that the output `text` lists, in order.
pub open spec fn listed_dirs(text: Seq<char>) -> Seq<Seq<char>> {
    scan_from(initial_state(), split_on(text, '\n')).1
}

/// The views of a sequence of strings.
pub open spec fn strings_view(v: Seq<String>) -> Seq<Seq<char>> {
    v.map_values(|s: String| s@)
}

/// Relies on regex::Regex::new and Regex::replace: with the pattern `\s*\(.*\)$`,
/// on a haystack without line feeds, the leftmost match starts at the whitespace
/// before the first `(` and runs to the end, and exists only when the haystack
/// ends with `)`; replacing it with nothing leaves the part before it.
#[verifier::external_body]
fn regex_remove_first(pattern: &str, haystack: &str) -> (r: String)
    requires
        pattern@ == annotation_pattern(),
        !haystack@.contains('\n'),
    ensures
        r@ == without_annotation(haystack@),
{
    regex::Regex::new(pattern).unwrap().replace(haystack, "").into_owned()
}

/// Once the scan has finished, further lines change nothing.
proof fn lemma_finished_stays(st: (Section, Seq<Seq<char>>), lines: Seq<Seq<char>>)
    requires
        st.0 == Section::Finished,
    ensures
        scan_from(st, lines) == st,
    decreases lines.len(),
{
    if lines.len() > 0 {
        lemma_finished_stays(st, lines.drop_last());
    }
}

/// Reading `a` then `b` is reading `a + b`.
pub proof fn lemma_scan_concat(
    st: (Section, Seq<Seq<char>>),
    a: Seq<Seq<char>>,
    b: Seq<Seq<char>>,
)
    ensures
        scan_from(st, a + b) == scan_from(scan_from(st, a), b),
    decreases b.len(),
{
    if b.len() == 0 {
        assert(a + b =~= a);
    } else {
        assert((a + b).drop_last() =~= a + b.drop_last());
        lemma_scan_concat(st, a, b.drop_last());
    }
}

/// No piece of `split_on(s, sep)` holds `sep`.
pub proof fn lemma_split_pieces_lack_sep(s: Seq<char>, sep: char)
    ensures
        forall|k: int|
            0 <= k < split_on(s, sep).len() ==> !(#[trigger] split_on(s, sep)[k]).contains(sep),
    decreases s.len(),
{
    lemma_split_on_nonempty(s, sep);
    if s.len() > 0 {
        lemma_split_pieces_lack_sep(s.drop_last(), sep);
        lemma_split_on_nonempty(s.drop_last(), sep);
        let prev = split_on(s.drop_last(), sep);
        if s.last() != sep {
            let l = prev.last().push(s.last());
            assert(!prev[prev.len() - 1].contains(sep));
            assert forall|j: int| 0 <= j < l.len() implies l[j] != sep by {
                if j < l.len() - 1 {
                    assert(l[j] == prev.last()[j]);
                }
            }
        }
        assert forall|k: int| 0 <= k < split_on(s, sep).len() implies !(
        #[trigger] split_on(s, sep)[k]).contains(sep) by {
            if k < prev.len() - 1 {
                assert(split_on(s, sep)[k] == prev[k]);
            }
        }
    }
}

/// Trimming keeps out any character that `s` lacks.
pub proof fn lemma_trim_lacks(s: Seq<char>, c: char)
    requires
        !s.contains(c),
    ensures
        !trim(s).contains(c),
{
    lemma_trim_start_lacks(s, c);
    lemma_trim_end_lacks(trim_start(s), c);
}

proof fn lemma_trim_start_lacks(s: Seq<char>, c: char)
    requires
        !s.contains(c),
    ensures
        !trim_start(s).contains(c),
    decreases s.len(),
{
    if s.len() > 0 && is_white(s[0]) {
        assert forall|j: int| 0 <= j < s.drop_first().len() implies s.drop_first()[j] != c by {
            assert(s.drop_first()[j] == s[j + 1]);
        }
        lemma_trim_start_lacks(s.drop_first(), c);
    }
}

proof fn lemma_trim_end_lacks(s: Seq<char>, c: char)
    requires
        !s.contains(c),
    ensures
        !trim_end(s).contains(c),
    decreases s.len(),
{
    if s.len() > 0 && is_white(s.last()) {
        assert forall|j: int| 0 <= j < s.drop_last().len() implies s.drop_last()[j] != c by {
            assert(s.drop_last()[j] == s[j]);
        }
        lemma_trim_end_lacks(s.drop_last(), c);
    }
}

/// The directory that a line of the search list contributes.
pub open spec fn entry_of(line: Seq<char>) -> Seq<char> {
    normalize(cleaned(trim(line)))
}

/// Trimmed, `line` holds the start marker.
pub open spec fn opens_list(line: Seq<char>) -> bool {
    contains_seq(trim(line), start_marker())
}

/// Trimmed, `line` holds the end marker and not the start marker.
pub open spec fn closes_list(line: Seq<char>) -> bool {
    !opens_list(line) && contains_seq(trim(line), end_marker())
}

/// `line` holds neither marker and is not empty once trimmed and rid of its annotation.
pub open spec fn is_dir_line(line: Seq<char>) -> bool {
    !opens_list(line) && !contains_seq(trim(line), end_marker()) && cleaned(trim(line)).len() > 0
}

proof fn lemma_outside_stays(pre: Seq<Seq<char>>)
    requires
        forall|k: int| 0 <= k < pre.len() ==> !opens_list(#[trigger] pre[k]),
    ensures
        scan_from(initial_state(), pre) == initial_state(),
    decreases pre.len(),
{
    if pre.len() > 0 {
        assert(!opens_list(pre[pre.len() - 1]));
        lemma_outside_stays(pre.drop_last());
    }
}

proof fn lemma_inside_collects(d: Seq<Seq<char>>, body: Seq<Seq<char>>)
    requires
        forall|k: int| 0 <= k < body.len() ==> is_dir_line(#[trigger] body[k]),
    ensures
        scan_from((Section::Inside, d), body) == (Section::Inside, d + body.map_values(
            |l: Seq<char>| entry_of(l),
        )),
    decreases body.len(),
{
    if body.len() == 0 {
        assert(d + body.map_values(|l: Seq<char>| entry_of(l)) =~= d);
    } else {
        let init = body.drop_last();
        assert forall|k: int| 0 <= k < init.len() implies is_dir_line(#[trigger] init[k]) by {
            assert(init[k] == body[k]);
        }
        lemma_inside_collects(d, init);
        assert(is_dir_line(body[body.len() - 1]));
        assert((d + init.map_values(|l: Seq<char>| entry_of(l))).push(entry_of(body.last())) =~= d
            + body.map_values(|l: Seq<char>| entry_of(l)));
    }
}

/// In output made of lines `pre`, then a line opening the search list, lines
/// `body`, a line closing it and lines `post`, where no line of `pre` opens
/// the list and every line of `body` is a directory line, the listed
/// directories are exactly the lines of `body`, trimmed, rid of their
/// annotations and normalized, in order.
pub proof fn lemma_section_lines_listed(
    pre: Seq<Seq<char>>,
    open: Seq<char>,
    body: Seq<Seq<char>>,
    close: Seq<char>,
    post: Seq<Seq<char>>,
)
    requires
        forall|k: int|
            0 <= k < (pre + seq![open] + body + seq![close] + post).len() ==> !(#[trigger] (pre
                + seq![open] + body + seq![close] + post)[k]).contains('\n'),
        forall|k: int| 0 <= k < pre.len() ==> !opens_list(#[trigger] pre[k]),
        opens_list(open),
        forall|k: int| 0 <= k < body.len() ==> is_dir_line(#[trigger] body[k]),
        closes_list(close),
    ensures
        listed_dirs(join_on(pre + seq![open] + body + seq![close] + post, '\n')) == body.map_values(
            |l: Seq<char>| entry_of(l),
        ),
{
    let all = pre + seq![open] + body + seq![close] + post;
    lemma_split_join(all, '\n');
    let st0 = initial_state();
    lemma_scan_concat(st0, pre + seq![open] + body + seq![close], post);
    lemma_scan_concat(st0, pre + seq![open] + body, seq![close]);
    lemma_scan_concat(st0, pre + seq![open], body);
    lemma_scan_concat(st0, pre, seq![open]);
    lemma_outside_stays(pre);
    assert(seq![open].drop_last() =~= Seq::<Seq<char>>::empty());
    assert(scan_from(st0, Seq::<Seq<char>>::empty()) == st0);
    assert(scan_from(st0, seq![open]) == step(st0, open));
    assert(scan_from(st0, pre + seq![open]) == (Section::Inside, Seq::<Seq<char>>::empty()));
    lemma_inside_collects(Seq::empty(), body);
    let m = body.map_values(|l: Seq<char>| entry_of(l));
    assert(Seq::<Seq<char>>::empty() + m =~= m);
    assert(seq![close].drop_last() =~= Seq::<Seq<char>>::empty());
    let st1 = (Section::Inside, m);
    assert(scan_from(st1, Seq::<Seq<char>>::empty()) == st1);
    assert(scan_from(st1, seq![close]) == step(st1, close));
    assert(scan_from(st0, pre + seq![open] + body + seq![close]) == (Section::Finished, m));
    lemma_finished_stays((Section::Finished, m), post);
}

/// A start marker line followed at once by an end marker line lists nothing,
/// so parsing such output fails with `NoIncludeDirectoriesFound`.
pub proof fn lemma_empty_section_lists_nothing(
    pre: Seq<Seq<char>>,
    open: Seq<char>,
    close: Seq<char>,
    post: Seq<Seq<char>>,
)
    requires
        forall|k: int|
            0 <= k < (pre + seq![open] + seq![close] + post).len() ==> !(#[trigger] (pre
                + seq![open] + seq![close] + post)[k]).contains('\n'),
        forall|k: int| 0 <= k < pre.len() ==> !opens_list(#[trigger] pre[k]),
        opens_list(open),
        closes_list(close),
    ensures
        listed_dirs(join_on(pre + seq![open] + seq![close] + post, '\n')).len() == 0,
{
    let body = Seq::<Seq<char>>::empty();
    assert(pre + seq![open] + body =~= pre + seq![open]);
    lemma_section_lines_listed(pre, open, body, close, post);
}

/// A line that, once trimmed, does not end with `)` carries no annotation:
/// its entry is the trimmed line with backslashes turned into forward slashes.
pub proof fn lemma_unannotated_line_kept(line: Seq<char>)
    requires
        trim(line).len() == 0 || trim(line).last() != ')',
    ensures
        entry_of(line) == normalize(trim(line)),
{
    lemma_trim_idempotent(line);
}

/// Output in which the start marker occurs nowhere lists no directory, so
/// parsing it fails with `NoIncludeDirectoriesFound`.
pub proof fn lemma_no_start_marker_lists_nothing(text: Seq<char>)
    requires
        !contains_seq(text, start_marker()),
    ensures
        listed_dirs(text).len() == 0,
{
    let lines = split_on(text, '\n');
    lemma_split_pieces_occur(text, '\n');
    assert forall|k: int| 0 <= k < lines.len() implies !opens_list(#[trigger] lines[k]) by {
        if opens_list(lines[k]) {
            lemma_trim_occurs(lines[k]);
            lemma_contains_trans(lines[k], trim(lines[k]), start_marker());
            lemma_contains_trans(text, lines[k], start_marker());
        }
    }
    lemma_outside_stays(lines);
}

/// Extracts the ordered list of directories between the start marker and the
/// end marker of a gcc-like compiler's verbose output. Each line is trimmed; a
/// trailing parenthesized annotation is removed and backslashes become forward
/// slashes. Fails with `NoIncludeDirectoriesFound` exactly when no directory
/// is listed.
pub fn parse_include_dirs(compiler_output: &str) -> (r: Result<Vec<String>, IncludeDirsError>)
    ensures
        match r {
            Ok(dirs) => listed_dirs(compiler_output@).len() > 0 && strings_view(dirs@)
                == listed_dirs(compiler_output@),
            Err(e) => listed_dirs(compiler_output@).len() == 0 && e
                == IncludeDirsError::NoIncludeDirectoriesFound,
        },
{
    let text = chars_of(compiler_output);
    let lines = split_chars(text.as_slice(), '\n');
    let ghost all = views_of(lines@);
    proof {
        lemma_split_pieces_lack_sep(text@, '\n');
    }
    let start = chars_of("#include <...> search starts here:");
    let end = chars_of("End of search list.");
    let pattern = "\\s*\\(.*\\)$";
    proof {
        reveal_strlit("\\s*\\(.*\\)$");
    }
    assert(pattern@ == annotation_pattern());
    let mut section = Section::Outside;
    let mut dirs: Vec<String> = Vec::new();
    let mut i: usize = 0;
    assert(all.take(0) =~= Seq::<Seq<char>>::empty());
    while i < lines.len()
        invariant
            all == views_of(lines@),
            all == split_on(text@, '\n'),
            text@ == compiler_output@,
            start@ == start_marker(),
            end@ == end_marker(),
            pattern@ == annotation_pattern(),
            forall|k: int| 0 <= k < all.len() ==> !(#[trigger] all[k]).contains('\n'),
            i <= lines@.len(),
            (section, strings_view(dirs@)) == scan_from(initial_state(), all.take(i as int)),
        ensures
            i == lines@.len(),
            (section, strings_view(dirs@)) == scan_from(initial_state(), all.take(i as int)),
        decreases lines@.len() - i,
    {
        let ghost before = (section, strings_view(dirs@));
        if section == Section::Finished {
            proof {
                lemma_scan_concat(initial_state(), all.take(i as int), all.skip(i as int));
                assert(all.take(i as int) + all.skip(i as int) =~= all.take(lines@.len() as int));
                lemma_finished_stays(before, all.skip(i as int));
            }
            i = lines.len();
            break;
        }
        let line = &lines[i];
        assert(all[i as int] == line@);
        let t = trim_chars(line.as_slice());
        if contains_chars(t.as_slice(), start.as_slice()) {
            section = Section::Inside;
        } else if section == Section::Inside {
            if contains_chars(t.as_slice(), end.as_slice()) {
                section = Section::Finished;
            } else {
                proof {
                    lemma_trim_lacks(line@, '\n');
                }
                let ts = string_of(t.as_slice());
                let stripped = regex_remove_first(pattern, ts.as_str());
                let sc = chars_of(stripped.as_str());
                let c = trim_chars(sc.as_slice());
                if c.len() > 0 {
                    let n = normalize_chars(c.as_slice());
                    let entry = string_of(n.as_slice());
                    dirs.push(entry);
                    assert(strings_view(dirs@) =~= before.1.push(normalize(cleaned(t@))));
                }
            }
        }
        assert(all.take(i + 1).drop_last() =~= all.take(i as int));
        i = i + 1;
    }
    assert(all.take(lines@.len() as int) =~= all);
    assert(strings_view(dirs@).len() == dirs@.len());
    if dirs.len() == 0 {
        Err(IncludeDirsError::NoIncludeDirectoriesFound)
    } else {
        Ok(dirs)
    }
}

} // verus!
