//! Structured file edits: command dispatch and patch-text generation.
//!
//! Edits arrive as `create`, `str_replace` and `delete` commands; each is
//! turned into the patch envelope the apply-patch pipeline consumes.  The
//! heart is `generate_str_replace_patch`, which requires a unique match and
//! builds a hunk with three lines of context around the change.

use vstd::prelude::*;

use crate::text::find_str;
use crate::text::first_match;
use crate::text::lemma_first_match_props;
use crate::text::match_at;
use crate::events::decimal_digits;
use crate::events::usize_to_decimal;

verus! {

/// A single newline character, the line separator.
pub open spec fn nl() -> Seq<char> {
    seq!['\n']
}

/// A line with a trailing carriage return stripped.
pub open spec fn strip_cr(l: Seq<char>) -> Seq<char> {
    if l.len() > 0 && l.last() == '\r' {
        l.drop_last()
    } else {
        l
    }
}

/// The lines of a text, split at newlines, each without its terminator and
/// without a trailing carriage return; text ending in a newline contributes
/// no empty final line.
pub open spec fn lines_of(s: Seq<char>) -> Seq<Seq<char>>
    decreases s.len()
        via lines_of_decreases
{
    if s.len() == 0 {
        Seq::empty()
    } else {
        match first_match(s, nl()) {
            None => seq![strip_cr(s)],
            Some(i) => seq![strip_cr(s.take(i))] + lines_of(s.skip(i + 1)),
        }
    }
}

#[via_fn]
proof fn lines_of_decreases(s: Seq<char>) {
    lemma_first_match_props(s, nl());
}

/// Occurrences of `pat` in `s`, counted left to right without overlap.
pub open spec fn count_occ(s: Seq<char>, pat: Seq<char>) -> int
    decreases s.len() when pat.len() > 0
        via count_occ_decreases
{
    match first_match(s, pat) {
        None => 0,
        Some(i) => 1 + count_occ(s.skip(i + pat.len() as int), pat),
    }
}

#[via_fn]
proof fn count_occ_decreases(s: Seq<char>, pat: Seq<char>) {
    lemma_first_match_props(s, pat);
}

/// An occurrence count is never negative.
proof fn lemma_count_occ_nonneg(s: Seq<char>, pat: Seq<char>)
    requires
        pat.len() > 0,
    ensures
        count_occ(s, pat) >= 0,
    decreases s.len(),
{
    lemma_first_match_props(s, pat);
    if let Some(i) = first_match(s, pat) {
        lemma_count_occ_nonneg(s.skip(i + pat.len() as int), pat);
    }
}

/// `s` with the first occurrence of `pat` replaced by `to`; unchanged when
/// there is none.
pub open spec fn replace_first(s: Seq<char>, pat: Seq<char>, to: Seq<char>) -> Seq<char> {
    match first_match(s, pat) {
        None => s,
        Some(i) => s.take(i) + to + s.skip(i + pat.len() as int),
    }
}

/// The number of newlines among the first `p` characters of `s`: the index
/// of the line that character position `p` falls in.
pub open spec fn count_nl_upto(s: Seq<char>, p: int) -> int
    decreases p,
{
    if p <= 0 {
        0
    } else {
        count_nl_upto(s, p - 1) + (if 0 <= p - 1 < s.len() && s[p - 1] == '\n' {
            1int
        } else {
            0int
        })
    }
}

/// Newline counts grow with the prefix.
proof fn lemma_count_nl_mono(s: Seq<char>, p: int, q: int)
    requires
        p <= q,
    ensures
        count_nl_upto(s, p) <= count_nl_upto(s, q),
    decreases q - p,
{
    if p < q {
        lemma_count_nl_mono(s, p, q - 1);
    }
}

/// A prefix with no newlines counts none.
proof fn lemma_count_nl_zero(s: Seq<char>, p: int)
    requires
        forall|j: int| 0 <= j < p && j < s.len() ==> s[j] != '\n',
    ensures
        count_nl_upto(s, p) == 0,
    decreases p,
{
    if p > 0 {
        lemma_count_nl_zero(s, p - 1);
    }
}

/// Counting across a split point adds up.
proof fn lemma_count_nl_split(s: Seq<char>, k: int, q: int)
    requires
        0 <= k,
        0 <= q,
        k + q <= s.len(),
    ensures
        count_nl_upto(s, k + q) == count_nl_upto(s, k) + count_nl_upto(s.skip(k), q),
    decreases q,
{
    if q > 0 {
        lemma_count_nl_split(s, k, q - 1);
        assert(s.skip(k)[q - 1] == s[k + q - 1]);
    }
}

/// A match of the single newline at `i` is just `s[i] == '\n'`.
proof fn lemma_nl_match(s: Seq<char>, i: int)
    requires
        0 <= i < s.len(),
    ensures
        match_at(s, nl(), i) <==> s[i] == '\n',
{
    if s[i] == '\n' {
        assert(s.subrange(i, i + 1) =~= nl());
    }
    if match_at(s, nl(), i) {
        assert(s.subrange(i, i + 1)[0] == s[i]);
    }
}

/// The line index of any in-range position is a valid index into the lines.
proof fn lemma_line_index_bound(s: Seq<char>, q: int)
    requires
        0 <= q < s.len(),
    ensures
        0 <= count_nl_upto(s, q) < lines_of(s).len(),
    decreases s.len(),
{
    lemma_first_match_props(s, nl());
    lemma_count_nl_mono(s, 0, q);
    match first_match(s, nl()) {
        None => {
            assert forall|j: int| 0 <= j < q && j < s.len() implies s[j] != '\n' by {
                lemma_nl_match(s, j);
            }
            lemma_count_nl_zero(s, q);
            assert(lines_of(s).len() == 1);
        },
        Some(i) => {
            assert(match_at(s, nl(), i));
            lemma_nl_match(s, i);
            assert(lines_of(s).len() == 1 + lines_of(s.skip(i + 1)).len());
            if q <= i {
                assert forall|j: int| 0 <= j < q && j < s.len() implies s[j] != '\n' by {
                    lemma_nl_match(s, j);
                    assert(!match_at(s, nl(), j));
                }
                lemma_count_nl_zero(s, q);
            } else {
                lemma_count_nl_split(s, i + 1, q - i - 1);
                assert(count_nl_upto(s, i + 1) == count_nl_upto(s, i) + 1);
                assert forall|j: int| 0 <= j < i && j < s.len() implies s[j] != '\n' by {
                    lemma_nl_match(s, j);
                    assert(!match_at(s, nl(), j));
                }
                lemma_count_nl_zero(s, i);
                if q - i - 1 < s.skip(i + 1).len() {
                    lemma_line_index_bound(s.skip(i + 1), q - i - 1);
                } else {
                    assert(q == s.len());
                }
            }
        },
    }
}

/// Lines joined back with single newlines.
pub open spec fn join_nl(ls: Seq<Seq<char>>) -> Seq<char>
    decreases ls.len(),
{
    if ls.len() == 0 {
        Seq::empty()
    } else if ls.len() == 1 {
        ls[0]
    } else {
        join_nl(ls.drop_last()) + nl() + ls.last()
    }
}

/// Each line prefixed by a marker character and terminated by a newline.
pub open spec fn marked_lines(ls: Seq<Seq<char>>, mark: char) -> Seq<char>
    decreases ls.len(),
{
    if ls.len() == 0 {
        Seq::empty()
    } else {
        marked_lines(ls.drop_last(), mark) + seq![mark] + ls.last() + nl()
    }
}

/// The patch envelope that creates a file with the given content.
pub open spec fn create_patch_spec(path: Seq<char>, file_text: Seq<char>) -> Seq<char> {
    "*** Begin Patch\n*** Add File: "@ + path + "\n"@ + marked_lines(lines_of(file_text), '+')
        + "*** End Patch\n"@
}

/// The patch envelope that deletes a file.
pub open spec fn delete_patch_spec(path: Seq<char>) -> Seq<char> {
    "*** Begin Patch\n*** Delete File: "@ + path + "\n*** End Patch\n"@
}

/// The update patch for a unique match: a single hunk with up to three lines
/// of context on both sides, the matched lines removed and the replacement
/// lines added.
pub open spec fn str_replace_patch_spec(
    path: Seq<char>,
    old_str: Seq<char>,
    new_str: Seq<char>,
    file_content: Seq<char>,
) -> Seq<char> {
    let m1 = first_match(file_content, old_str).unwrap();
    let start_line = count_nl_upto(file_content, m1);
    let end_line = count_nl_upto(file_content, m1 + old_str.len() - 1);
    let ls = lines_of(file_content);
    let ctx_start = if start_line >= 3 {
        start_line - 3
    } else {
        0
    };
    let ctx_end = if end_line + 4 <= ls.len() {
        end_line + 4
    } else {
        ls.len() as int
    };
    let old_region = join_nl(ls.subrange(start_line, end_line + 1));
    let new_region = replace_first(old_region, old_str, new_str);
    "*** Begin Patch\n*** Update File: "@ + path + "\n@@\n"@ + marked_lines(
        ls.subrange(ctx_start, start_line),
        ' ',
    ) + marked_lines(ls.subrange(start_line, end_line + 1), '-') + marked_lines(
        lines_of(new_region),
        '+',
    ) + marked_lines(ls.subrange(end_line + 1, ctx_end), ' ')
        + "*** End Patch\n"@
}

/// The error text for a pattern that does not occur.
pub open spec fn not_found_msg(path: Seq<char>) -> Seq<char> {
    "old_str not found in "@ + path + ". Make sure the string matches exactly."@
}

/// The error text for a pattern that occurs more than once.
pub open spec fn multiple_msg(count: int, path: Seq<char>) -> Seq<char> {
    "old_str appears "@ + decimal_digits(count) + " times in "@ + path
        + ". Add more surrounding context to make it unique."@
}

/// A failed edit, surfaced back to the model as text.
#[derive(Debug, Clone, PartialEq, Eq)]
pub enum EditError {
    RespondToModel(String),
}

/// The message text of an edit error.
pub open spec fn edit_error_text(e: EditError) -> Seq<char> {
    match e {
        EditError::RespondToModel(m) => m@,
    }
}

/// The views of a vector of lines.
pub open spec fn lines_view(ls: Seq<String>) -> Seq<Seq<char>> {
    ls.map_values(|l: String| l@)
}

/// Splits text into its lines.
pub fn split_lines(s: &str) -> (r: Vec<String>)
    ensures
        lines_view(r@) =~= lines_of(s@),
{
    proof {
        reveal_strlit("\n");
        assert("\n"@ =~= nl());
    }
    let mut out: Vec<String> = Vec::new();
    let mut rest = s.to_owned();
    let mut scanning = true;
    while scanning
        invariant
            scanning ==> lines_of(s@) =~= lines_view(out@) + lines_of(rest@),
            !scanning ==> lines_of(s@) =~= lines_view(out@),
        decreases (if scanning {
            1int
        } else {
            0int
        }), rest@.len(),
    {
        let ghost p = rest@;
        let ghost before = out@;
        let n = rest.as_str().unicode_len();
        if n == 0 {
            scanning = false;
            proof {
                assert(p =~= Seq::<char>::empty());
                assert(lines_of(p) =~= Seq::<Seq<char>>::empty());
                assert(lines_view(before) + lines_of(p) =~= lines_view(before));
            }
        } else {
            proof {
                reveal_strlit("\n");
                assert("\n"@ =~= nl());
            }
            match find_str(rest.as_str(), "\n") {
                None => {
                    let line = strip_cr_exec(rest);
                    rest = String::new();
                    out.push(line);
                    scanning = false;
                    proof {
                        lemma_first_match_props(p, nl());
                        assert(lines_of(p) =~= seq![strip_cr(p)]);
                        assert(lines_view(out@) =~= lines_view(before).push(strip_cr(p)));
                        assert(lines_view(before).push(strip_cr(p)) =~= lines_view(before)
                            + lines_of(p));
                    }
                },
                Some(i) => {
                    proof {
                        lemma_first_match_props(p, nl());
                    }
                    let head = rest.as_str().substring_char(0, i).to_owned();
                    let line = strip_cr_exec(head);
                    let tail = rest.as_str().substring_char(i + 1, n).to_owned();
                    out.push(line);
                    rest = tail;
                    proof {
                        assert(rest@ =~= p.skip(i + 1));
                        assert(lines_of(p) =~= seq![strip_cr(p.take(i as int))] + lines_of(
                            p.skip(i + 1),
                        ));
                        assert(lines_view(out@) =~= lines_view(before).push(
                            strip_cr(p.take(i as int)),
                        ));
                        assert(lines_view(before).push(strip_cr(p.take(i as int))) + lines_of(
                            rest@,
                        ) =~= lines_view(before) + lines_of(p));
                    }
                },
            }
        }
    }
    out
}

/// Strips one trailing carriage return.
fn strip_cr_exec(l: String) -> (r: String)
    ensures
        r@ =~= strip_cr(l@),
{
    let n = l.as_str().unicode_len();
    if n > 0 && l.as_str().get_char(n - 1) == '\r' {
        l.as_str().substring_char(0, n - 1).to_owned()
    } else {
        l
    }
}

/// The patch that creates `path` with the given content.
pub fn generate_create_patch(path: &str, file_text: &str) -> (r: String)
    ensures
        r@ =~= create_patch_spec(path@, file_text@),
{
    proof {
        reveal_strlit("+");
    }
    let mut patch = String::new();
    patch.append("*** Begin Patch\n*** Add File: ");
    patch.append(path);
    patch.append("\n");
    let lines = split_lines(file_text);
    append_marked_lines(&mut patch, &lines, 0, lines.len(), "+");
    patch.append("*** End Patch\n");
    proof {
        let lsv = lines_view(lines@);
        assert(lsv.subrange(0, lsv.len() as int) =~= lsv);
    }
    patch
}

/// The patch that deletes `path`.
pub fn generate_delete_patch(path: &str) -> (r: String)
    ensures
        r@ =~= delete_patch_spec(path@),
{
    let mut patch = String::new();
    patch.append("*** Begin Patch\n*** Delete File: ");
    patch.append(path);
    patch.append("\n*** End Patch\n");
    patch
}

/// Appends the lines `ls[from..to]`, each prefixed with the marker and
/// terminated with a newline.
fn append_marked_lines(out: &mut String, ls: &Vec<String>, from: usize, to: usize, mark: &str)
    requires
        from <= to <= ls@.len(),
        mark@.len() == 1,
    ensures
        final(out)@ =~= old(out)@ + marked_lines(
            lines_view(ls@).subrange(from as int, to as int),
            mark@[0],
        ),
{
    let ghost all = lines_view(ls@).subrange(from as int, to as int);
    let mut k: usize = from;
    proof {
        assert(all.subrange(0, 0) =~= Seq::<Seq<char>>::empty());
        assert(marked_lines(all.subrange(0, 0), mark@[0]) =~= Seq::<char>::empty());
    }
    while k < to
        invariant
            from <= k <= to <= ls@.len(),
            mark@.len() == 1,
            all =~= lines_view(ls@).subrange(from as int, to as int),
            out@ =~= old(out)@ + marked_lines(all.subrange(0, k - from as int), mark@[0]),
        decreases to - k,
    {
        out.append(mark);
        out.append(ls[k].as_str());
        out.append("\n");
        proof {
            reveal_strlit("\n");
            assert("\n"@ =~= nl());
            let t = all.subrange(0, k + 1 - from as int);
            assert(t.drop_last() =~= all.subrange(0, k - from as int));
            assert(t.last() == all[k - from as int]);
            assert(all[k - from as int] =~= ls@[k as int]@);
            assert(seq![mark@[0]] =~= mark@);
        }
        k = k + 1;
    }
    proof {
        assert(all.subrange(0, to - from as int) =~= all);
    }
}

/// Counts the non-overlapping occurrences of `pat` in `s`, left to right.
fn count_occurrences(s: &str, pat: &str) -> (count: usize)
    requires
        pat@.len() > 0,
    ensures
        count == count_occ(s@, pat@),
{
    let total = s.unicode_len();
    let mut count: usize = 0;
    let mut rest = s.to_owned();
    let mut scanning = true;
    while scanning
        invariant
            pat@.len() > 0,
            total == s@.len(),
            scanning ==> count_occ(s@, pat@) == count + count_occ(rest@, pat@),
            !scanning ==> count_occ(s@, pat@) == count,
            count + rest@.len() <= s@.len() || count == 0,
            rest@.len() <= s@.len(),
        decreases (if scanning {
            1int
        } else {
            0int
        }), rest@.len(),
    {
        let ghost p = rest@;
        match find_str(rest.as_str(), pat) {
            None => {
                scanning = false;
            },
            Some(i) => {
                proof {
                    lemma_first_match_props(p, pat@);
                }
                let n = rest.as_str().unicode_len();
                let plen = pat.unicode_len();
                let tail = rest.as_str().substring_char(i + plen, n).to_owned();
                rest = tail;
                count = count + 1;
                proof {
                    assert(rest@ =~= p.skip(i + pat@.len()));
                }
            },
        }
    }
    count
}

/// The character position `p` falls in line `count_nl_upto`; counted by one
/// scan.
fn line_index_at(s: &str, p: usize) -> (r: usize)
    requires
        p <= s@.len(),
    ensures
        r == count_nl_upto(s@, p as int),
{
    let mut r: usize = 0;
    let mut j: usize = 0;
    while j < p
        invariant
            j <= p <= s@.len(),
            r == count_nl_upto(s@, j as int),
            r <= j,
        decreases p - j,
    {
        if s.get_char(j) == '\n' {
            r = r + 1;
        }
        j = j + 1;
    }
    r
}

/// Joins `ls[from..to]` with newlines.
fn join_lines(ls: &Vec<String>, from: usize, to: usize) -> (r: String)
    requires
        from <= to <= ls@.len(),
    ensures
        r@ =~= join_nl(lines_view(ls@).subrange(from as int, to as int)),
{
    proof {
        reveal_strlit("\n");
        assert("\n"@ =~= nl());
    }
    let ghost all = lines_view(ls@).subrange(from as int, to as int);
    let mut r = String::new();
    let mut k: usize = from;
    proof {
        assert(all.subrange(0, 0) =~= Seq::<Seq<char>>::empty());
    }
    while k < to
        invariant
            from <= k <= to <= ls@.len(),
            all =~= lines_view(ls@).subrange(from as int, to as int),
            r@ =~= join_nl(all.subrange(0, k - from as int)),
        decreases to - k,
    {
        if k > from {
            r.append("\n");
        }
        r.append(ls[k].as_str());
        proof {
            reveal_strlit("\n");
            assert("\n"@ =~= nl());
            let t = all.subrange(0, k + 1 - from as int);
            assert(t.drop_last() =~= all.subrange(0, k - from as int));
            assert(t.last() == all[k - from as int]);
            assert(all[k - from as int] =~= ls@[k as int]@);
            if k == from {
                assert(t.len() == 1);
                assert(t[0] == all[0]);
            }
        }
        k = k + 1;
    }
    proof {
        assert(all.subrange(0, to - from as int) =~= all);
    }
    r
}

/// Replaces the first occurrence of `pat` in `s` by `to`; `s` unchanged when
/// there is none.
fn replace_first_exec(s: &str, pat: &str, to: &str) -> (r: String)
    ensures
        r@ =~= replace_first(s@, pat@, to@),
{
    match find_str(s, pat) {
        None => s.to_owned(),
        Some(i) => {
            proof {
                lemma_first_match_props(s@, pat@);
            }
            let n = s.unicode_len();
            let plen = pat.unicode_len();
            let mut r = s.substring_char(0, i).to_owned();
            r.append(to);
            r.append(s.substring_char(i + plen, n));
            r
        },
    }
}

/// Generates the update patch for replacing the unique occurrence of
/// `old_str` in `file_content`.  A pattern that never occurs, or occurs more
/// than once, is rejected with a message naming the file — and, for multiple
/// occurrences, the count.  An empty pattern matches at every position and
/// is always rejected as ambiguous.
pub fn generate_str_replace_patch(
    path: &str,
    old_str: &str,
    new_str: &str,
    file_content: &str,
) -> (r: Result<String, EditError>)
    requires
        old_str@.len() > 0 || file_content@.len() > 0,
        file_content@.len() < usize::MAX as int,
    ensures
        old_str@.len() == 0 ==> (r matches Err(e) && edit_error_text(e) =~= multiple_msg(
            file_content@.len() as int + 1,
            path@,
        )),
        old_str@.len() > 0 ==> {
            &&& (r is Ok <==> count_occ(file_content@, old_str@) == 1)
            &&& (count_occ(file_content@, old_str@) == 0 ==> (r matches Err(e) && edit_error_text(
                e,
            ) =~= not_found_msg(path@)))
            &&& (count_occ(file_content@, old_str@) > 1 ==> (r matches Err(e) && edit_error_text(
                e,
            ) =~= multiple_msg(count_occ(file_content@, old_str@), path@)))
            &&& (r matches Ok(patch) ==> patch@ =~= str_replace_patch_spec(
                path@,
                old_str@,
                new_str@,
                file_content@,
            ))
        },
{
    if old_str.unicode_len() == 0 {
        let n = file_content.unicode_len();
        let mut msg = String::new();
        msg.append("old_str appears ");
        msg.append(usize_to_decimal(n + 1).as_str());
        msg.append(" times in ");
        msg.append(path);
        msg.append(". Add more surrounding context to make it unique.");
        return Err(EditError::RespondToModel(msg));
    }
    let m1 = match find_str(file_content, old_str) {
        Some(m) => m,
        None => {
            let mut msg = String::new();
            msg.append("old_str not found in ");
            msg.append(path);
            msg.append(". Make sure the string matches exactly.");
            return Err(EditError::RespondToModel(msg));
        },
    };
    let count = count_occurrences(file_content, old_str);
    if count > 1 {
        let mut msg = String::new();
        msg.append("old_str appears ");
        msg.append(usize_to_decimal(count).as_str());
        msg.append(" times in ");
        msg.append(path);
        msg.append(". Add more surrounding context to make it unique.");
        return Err(EditError::RespondToModel(msg));
    }
    let file_chars = file_content.unicode_len();
    proof {
        lemma_first_match_props(file_content@, old_str@);
        lemma_count_occ_nonneg(
            file_content@.skip(m1 + old_str@.len() as int),
            old_str@,
        );
        assert(count_occ(file_content@, old_str@) >= 1);
        assert(file_chars == file_content@.len());
    }
    let plen = old_str.unicode_len();
    let start_line = line_index_at(file_content, m1);
    let end_line = line_index_at(file_content, m1 + plen - 1);
    let lines = split_lines(file_content);
    proof {
        lemma_count_nl_mono(file_content@, m1 as int, m1 + plen - 1);
        lemma_line_index_bound(file_content@, m1 + plen - 1);
    }
    let ctx_start = if start_line >= 3 {
        start_line - 3
    } else {
        0
    };
    let ctx_end = if lines.len() - end_line - 1 >= 3 {
        end_line + 4
    } else {
        lines.len()
    };
    let old_region = join_lines(&lines, start_line, end_line + 1);
    let new_region = replace_first_exec(old_region.as_str(), old_str, new_str);
    let new_lines = split_lines(new_region.as_str());

    proof {
        reveal_strlit(" ");
        reveal_strlit("-");
        reveal_strlit("+");
    }
    let mut patch = String::new();
    patch.append("*** Begin Patch\n*** Update File: ");
    patch.append(path);
    patch.append("\n@@\n");
    append_marked_lines(&mut patch, &lines, ctx_start, start_line, " ");
    append_marked_lines(&mut patch, &lines, start_line, end_line + 1, "-");
    append_marked_lines(&mut patch, &new_lines, 0, new_lines.len(), "+");
    append_marked_lines(&mut patch, &lines, end_line + 1, ctx_end, " ");
    patch.append("*** End Patch\n");
    proof {
        reveal_strlit(" ");
        reveal_strlit("-");
        reveal_strlit("+");
        let lsv = lines_view(lines@);
        assert(lsv.subrange(0, lsv.len() as int) =~= lsv);
        let nlv = lines_view(new_lines@);
        assert(nlv.subrange(0, nlv.len() as int) =~= nlv);
    }
    Ok(patch)
}

} // verus!
