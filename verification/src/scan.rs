//! Line scanning: splitting text into lines and testing each line for a
//! substring match, with or without regard to case.

use vstd::prelude::*;
use vstd::string::StrSliceExecFns;

verus! {

/// The needle occurs in the haystack starting at position `i`.
pub open spec fn contains_at(hay: Seq<char>, needle: Seq<char>, i: int) -> bool {
    &&& 0 <= i
    &&& i + needle.len() <= hay.len()
    &&& hay.subrange(i, i + needle.len() as int) == needle
}

/// The needle occurs somewhere in the haystack. The empty needle occurs in
/// every haystack.
pub open spec fn has_substring(hay: Seq<char>, needle: Seq<char>) -> bool {
    exists|i: int| contains_at(hay, needle, i)
}

/// Substring test over the characters of two string slices.
fn contains_sub(hay: &str, needle: &str) -> (b: bool)
    ensures
        b == has_substring(hay@, needle@),
{
    let n = hay.unicode_len();
    let m = needle.unicode_len();
    if m > n {
        proof {
            assert(forall|i: int| !contains_at(hay@, needle@, i));
        }
        return false;
    }
    if m == 0 {
        proof {
            assert(hay@.subrange(0, 0) =~= needle@);
            assert(contains_at(hay@, needle@, 0));
        }
        return true;
    }
    let mut i: usize = 0;
    while i <= n - m
        invariant
            n == hay@.len(),
            m == needle@.len(),
            0 < m <= n,
            i <= n - m + 1,
            forall|j: int| 0 <= j < i ==> !contains_at(hay@, needle@, j),
        decreases n - m - i + 1,
    {
        let mut k: usize = 0;
        let mut ok = true;
        while k < m && ok
            invariant
                n == hay@.len(),
                m == needle@.len(),
                i + m <= n,
                k <= m,
                ok ==> forall|t: int| 0 <= t < k ==> hay@[i + t] == needle@[t],
                !ok ==> !contains_at(hay@, needle@, i as int),
            decreases m - k + (if ok {
                1int
            } else {
                0int
            }),
        {
            if hay.get_char(i + k) != needle.get_char(k) {
                proof {
                    assert(hay@.subrange(i as int, i + m as int) != needle@) by {
                        assert(hay@.subrange(i as int, i + m as int)[k as int] == hay@[i + k]);
                    }
                }
                ok = false;
            } else {
                k = k + 1;
            }
        }
        if ok {
            proof {
                assert(hay@.subrange(i as int, i + m as int) =~= needle@);
                assert(contains_at(hay@, needle@, i as int));
            }
            return true;
        }
        i = i + 1;
    }
    proof {
        assert(forall|j: int| contains_at(hay@, needle@, j) ==> 0 <= j <= n - m);
    }
    false
}

/// The lines of a text, with `'\n'` as the separator. A trailing separator
/// does not open an empty final line, and an empty text has no lines.
pub open spec fn line_seq(s: Seq<char>) -> Seq<Seq<char>>
    decreases s.len(),
{
    if s.len() == 0 {
        Seq::empty()
    } else if s[0] == '\n' {
        seq![Seq::<char>::empty()] + line_seq(s.drop_first())
    } else {
        let rest = line_seq(s.drop_first());
        if rest.len() == 0 {
            seq![seq![s[0]]]
        } else {
            seq![seq![s[0]] + rest[0]] + rest.drop_first()
        }
    }
}

/// A non-empty text without a separator is one single line.
proof fn lemma_line_seq_no_newline(t: Seq<char>)
    requires
        t.len() > 0,
        forall|k: int| 0 <= k < t.len() ==> t[k] != '\n',
    ensures
        line_seq(t) == seq![t],
    decreases t.len(),
{
    if t.len() == 1 {
        assert(line_seq(t.drop_first()) =~= Seq::<Seq<char>>::empty());
        assert(seq![t[0]] =~= t);
        assert(line_seq(t) =~= seq![t]);
    } else {
        lemma_line_seq_no_newline(t.drop_first());
        let rest = line_seq(t.drop_first());
        assert(rest == seq![t.drop_first()]);
        assert(seq![t[0]] + rest[0] =~= t);
        assert(line_seq(t) =~= seq![t]);
    }
}

/// Splitting at the first separator: the part before it is the first line,
/// and the lines of the part after it follow.
proof fn lemma_line_seq_first_newline(t: Seq<char>, k: int)
    requires
        0 <= k < t.len(),
        t[k] == '\n',
        forall|j: int| 0 <= j < k ==> t[j] != '\n',
    ensures
        line_seq(t) == seq![t.subrange(0, k)] + line_seq(t.subrange(k + 1, t.len() as int)),
    decreases t.len(),
{
    if k == 0 {
        assert(t.subrange(0, 0) =~= Seq::<char>::empty());
        assert(t.subrange(1, t.len() as int) =~= t.drop_first());
        assert(line_seq(t) =~= seq![t.subrange(0, 0)] + line_seq(
            t.subrange(k + 1, t.len() as int),
        ));
    } else {
        let d = t.drop_first();
        assert(d[k - 1] == '\n');
        assert(forall|j: int| 0 <= j < k - 1 ==> d[j] != '\n');
        lemma_line_seq_first_newline(d, k - 1);
        let rest = line_seq(d);
        assert(rest == seq![d.subrange(0, k - 1)] + line_seq(d.subrange(k, d.len() as int)));
        assert(rest.len() > 0);
        assert(rest[0] == d.subrange(0, k - 1));
        assert(seq![t[0]] + d.subrange(0, k - 1) =~= t.subrange(0, k));
        assert(rest.drop_first() =~= line_seq(d.subrange(k, d.len() as int)));
        assert(d.subrange(k, d.len() as int) =~= t.subrange(k + 1, t.len() as int));
        assert(line_seq(t) =~= seq![t.subrange(0, k)] + line_seq(
            t.subrange(k + 1, t.len() as int),
        ));
    }
}

/// Splits a text into its lines, with `'\n'` as the separator.
fn split_lines(contents: &str) -> (lines: Vec<String>)
    ensures
        lines@.map_values(|l: String| l@) == line_seq(contents@),
{
    let n = contents.unicode_len();
    let mut lines: Vec<String> = Vec::new();
    let mut start: usize = 0;
    let mut i: usize = 0;
    proof {
        assert(contents@.subrange(0, n as int) =~= contents@);
        assert(lines@.map_values(|l: String| l@) + line_seq(contents@) =~= line_seq(contents@));
    }
    while i < n
        invariant
            n == contents@.len(),
            start <= i <= n,
            line_seq(contents@) == lines@.map_values(|l: String| l@) + line_seq(
                contents@.subrange(start as int, n as int),
            ),
            forall|k: int| start <= k < i ==> contents@[k] != '\n',
        decreases n - i,
    {
        if contents.get_char(i) == '\n' {
            let line = contents.substring_char(start, i).to_owned();
            proof {
                let tail = contents@.subrange(start as int, n as int);
                let j = i - start;
                assert(tail[j] == '\n');
                assert(forall|t: int| 0 <= t < j ==> tail[t] != '\n');
                lemma_line_seq_first_newline(tail, j);
                assert(tail.subrange(0, j) =~= contents@.subrange(start as int, i as int));
                assert(tail.subrange(j + 1, tail.len() as int) =~= contents@.subrange(
                    i + 1,
                    n as int,
                ));
                assert(lines@.push(line).map_values(|l: String| l@) =~= lines@.map_values(
                    |l: String| l@,
                ).push(line@));
                assert(lines@.map_values(|l: String| l@) + seq![line@] + line_seq(
                    contents@.subrange(i + 1, n as int),
                ) =~= lines@.push(line).map_values(|l: String| l@) + line_seq(
                    contents@.subrange(i + 1, n as int),
                ));
            }
            lines.push(line);
            start = i + 1;
        }
        i = i + 1;
    }
    if start < n {
        let line = contents.substring_char(start, n).to_owned();
        proof {
            let tail = contents@.subrange(start as int, n as int);
            lemma_line_seq_no_newline(tail);
            assert(lines@.push(line).map_values(|l: String| l@) =~= lines@.map_values(
                |l: String| l@,
            ).push(line@));
            assert(lines@.map_values(|l: String| l@) + seq![tail] =~= lines@.push(
                line,
            ).map_values(|l: String| l@));
        }
        lines.push(line);
    } else {
        proof {
            assert(contents@.subrange(start as int, n as int) =~= Seq::<char>::empty());
            assert(line_seq(Seq::<char>::empty()) =~= Seq::<Seq<char>>::empty());
            assert(lines@.map_values(|l: String| l@) + Seq::<Seq<char>>::empty() =~= lines@
                .map_values(|l: String| l@));
        }
    }
    lines
}

/// What `str::to_lowercase` returns for a given sequence of characters. The
/// result depends on the characters alone.
pub uninterp spec fn lower_of(s: Seq<char>) -> Seq<char>;

/// Relies on `str::to_lowercase` of std: the lowercase equivalent of the
/// string, a function of its characters alone.
#[verifier::external_body]
fn lowercase(s: &str) -> (r: String)
    ensures
        r@ == lower_of(s@),
{
    s.to_lowercase()
}

/// A line is a hit for a query: the query occurs in the line as it stands,
/// or, without case sensitivity, the lowercased query occurs in the
/// lowercased line.
pub open spec fn line_hit(query: Seq<char>, case_sensitive: bool, line: Seq<char>) -> bool {
    if case_sensitive {
        has_substring(line, query)
    } else {
        has_substring(lower_of(line), lower_of(query))
    }
}

/// The lines among `lines` that are hits for the query, in their original
/// order, each kept once.
pub open spec fn matches_of(query: Seq<char>, case_sensitive: bool, lines: Seq<Seq<char>>) -> Seq<
    Seq<char>,
>
    decreases lines.len(),
{
    if lines.len() == 0 {
        Seq::empty()
    } else {
        let rest = matches_of(query, case_sensitive, lines.drop_last());
        if line_hit(query, case_sensitive, lines.last()) {
            rest.push(lines.last())
        } else {
            rest
        }
    }
}

/// Returns the lines of `contents` in which the query occurs, in their
/// original order.
pub fn scan_lines(query: &str, contents: &str, case_sensitive: bool) -> (r: Vec<String>)
    ensures
        r@.map_values(|l: String| l@) == matches_of(query@, case_sensitive, line_seq(contents@)),
{
    let lines = split_lines(contents);
    let lowered_query = if case_sensitive {
        String::new()
    } else {
        lowercase(query)
    };
    let all = Ghost(line_seq(contents@));
    let mut out: Vec<String> = Vec::new();
    let mut idx: usize = 0;
    proof {
        assert(all@.take(0) =~= Seq::<Seq<char>>::empty());
        assert(out@.map_values(|l: String| l@) =~= matches_of(
            query@,
            case_sensitive,
            all@.take(0),
        ));
    }
    while idx < lines.len()
        invariant
            lines@.map_values(|l: String| l@) == all@,
            all@ == line_seq(contents@),
            !case_sensitive ==> lowered_query@ == lower_of(query@),
            idx <= lines.len(),
            out@.map_values(|l: String| l@) == matches_of(
                query@,
                case_sensitive,
                all@.take(idx as int),
            ),
        decreases lines@.len() - idx,
    {
        let line = &lines[idx];
        let hit = if case_sensitive {
            contains_sub(line.as_str(), query)
        } else {
            let lowered_line = lowercase(line.as_str());
            contains_sub(lowered_line.as_str(), lowered_query.as_str())
        };
        proof {
            assert(all@[idx as int] == lines@.map_values(|l: String| l@)[idx as int]);
            assert(all@.take(idx + 1).drop_last() =~= all@.take(idx as int));
            assert(all@.take(idx + 1).last() == line@);
            assert(hit == line_hit(query@, case_sensitive, line@));
            if hit {
                assert(out@.push(*line).map_values(|l: String| l@) =~= out@.map_values(
                    |l: String| l@,
                ).push(line@));
            }
        }
        if hit {
            out.push(line.clone());
        }
        idx = idx + 1;
    }
    proof {
        assert(all@.take(lines@.len() as int) =~= all@);
    }
    out
}

/// Case-sensitive search: the lines of `contents` in which `query` occurs
/// with the exact case, in their original order.
pub fn search_case_sensitive(query: &str, contents: &str) -> (r: Result<Vec<String>, String>)
    ensures
        r matches Ok(v) && v@.map_values(|l: String| l@) == matches_of(
            query@,
            true,
            line_seq(contents@),
        ),
{
    Ok(scan_lines(query, contents, true))
}

/// Case-insensitive search: the lines of `contents` whose lowercased form
/// contains the lowercased query, in their original order.
pub fn search_case_insensitive(query: &str, contents: &str) -> (r: Result<Vec<String>, String>)
    ensures
        r matches Ok(v) && v@.map_values(|l: String| l@) == matches_of(
            query@,
            false,
            line_seq(contents@),
        ),
{
    Ok(scan_lines(query, contents, false))
}

/// The empty query is a hit on every line: a case-sensitive scan with it
/// keeps every line of the text, in order.
pub proof fn lemma_empty_query_matches_all(contents: Seq<char>)
    ensures
        matches_of(Seq::empty(), true, line_seq(contents)) == line_seq(contents),
{
    lemma_empty_query_all_lines(line_seq(contents));
}

proof fn lemma_empty_query_all_lines(lines: Seq<Seq<char>>)
    ensures
        matches_of(Seq::empty(), true, lines) == lines,
    decreases lines.len(),
{
    if lines.len() == 0 {
        assert(matches_of(Seq::empty(), true, lines) =~= lines);
    } else {
        lemma_empty_query_all_lines(lines.drop_last());
        assert(lines.last().subrange(0, 0) =~= Seq::<char>::empty());
        assert(contains_at(lines.last(), Seq::empty(), 0));
        assert(matches_of(Seq::empty(), true, lines) =~= lines.drop_last().push(lines.last()));
        assert(lines.drop_last().push(lines.last()) =~= lines);
    }
}

/// Empty contents have no lines, so a scan of them finds nothing, whatever
/// the query and the mode.
pub proof fn lemma_empty_contents_no_matches(query: Seq<char>, case_sensitive: bool)
    ensures
        matches_of(query, case_sensitive, line_seq(Seq::empty())) == Seq::<Seq<char>>::empty(),
{
    assert(matches_of(query, case_sensitive, line_seq(Seq::empty()))
        =~= Seq::<Seq<char>>::empty());
}

/// A case-insensitive scan sees the query only through its lowercased form:
/// two queries with the same lowercased form select the same lines.
pub proof fn lemma_insensitive_query_case(q1: Seq<char>, q2: Seq<char>, lines: Seq<Seq<char>>)
    requires
        lower_of(q1) == lower_of(q2),
    ensures
        matches_of(q1, false, lines) == matches_of(q2, false, lines),
    decreases lines.len(),
{
    if lines.len() > 0 {
        lemma_insensitive_query_case(q1, q2, lines.drop_last());
    }
}

} // verus!
