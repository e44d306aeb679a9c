//! Skill registry entries and `SKILL.md` parsing.
use vstd::prelude::*;
use crate::text::{
    chars_of, count_while, is_ws, lemma_count_while, lemma_count_while_bounds, lemma_trim_trimmed,
    trim, trim_bounds,
};

verus! {

/// A single skill loaded from disk.
#[derive(Debug, Clone, PartialEq, Eq)]
pub struct Skill {
    pub name: String,
    pub summary: String,
    pub directory: String,
}

impl Skill {
    /// A skill with the given name, summary and directory.
    pub fn new(name: &str, summary: &str, dir: &str) -> (s: Self)
        ensures
            s.name@ == name@,
            s.summary@ == summary@,
            s.directory@ == dir@,
    {
        Skill { name: name.to_owned(), summary: summary.to_owned(), directory: dir.to_owned() }
    }
}

/// The predicate "is not a line feed".
pub open spec fn not_newline() -> spec_fn(char) -> bool {
    |c: char| c != '\n'
}

/// `l` without one trailing carriage return.
pub open spec fn strip_cr(l: Seq<char>) -> Seq<char> {
    if l.len() > 0 && l.last() == '\r' {
        l.drop_last()
    } else {
        l
    }
}

/// The lines of `s` as `str::lines` yields them: split at each `\n`, a `\r`
/// just before the `\n` dropped, and no empty line after a final `\n`.
pub open spec fn lines(s: Seq<char>) -> Seq<Seq<char>>
    decreases s.len(),
{
    if s.len() == 0 {
        seq![]
    } else {
        let k = count_while(s, not_newline());
        if k < s.len() {
            seq![strip_cr(s.take(k as int))] + lines(s.skip((k + 1) as int))
        } else {
            seq![s]
        }
    }
}

/// A line is blank when nothing is left of it after trimming.
pub open spec fn is_blank(l: Seq<char>) -> bool {
    trim(l).len() == 0
}

/// The predicate "is blank".
pub open spec fn blank_line() -> spec_fn(Seq<char>) -> bool {
    |l: Seq<char>| is_blank(l)
}

/// The predicate "belongs to a paragraph": not blank, and not a header line
/// (one that starts with `#`).
pub open spec fn paragraph_line() -> spec_fn(Seq<char>) -> bool {
    |l: Seq<char>| !is_blank(l) && !(l.len() > 0 && l[0] == '#')
}

/// `s` without its leading `#` characters (`str::trim_start_matches('#')`).
pub open spec fn strip_hashes(s: Seq<char>) -> Seq<char> {
    s.skip(count_while(s, |c: char| c == '#') as int)
}

/// The lines joined with a single space between neighbours.
pub open spec fn join_spaced(ls: Seq<Seq<char>>) -> Seq<char>
    decreases ls.len(),
{
    if ls.len() == 0 {
        seq![]
    } else if ls.len() == 1 {
        ls[0]
    } else {
        join_spaced(ls.drop_last()) + seq![' '] + ls.last()
    }
}

/// The first paragraph of `ls`: after any blank lines, the run of lines that
/// are neither blank nor headers.
pub open spec fn first_paragraph(ls: Seq<Seq<char>>) -> Seq<Seq<char>> {
    let from = ls.skip(count_while(ls, blank_line()) as int);
    from.take(count_while(from, paragraph_line()) as int)
}

/// Name and summary that a `SKILL.md` body defines, if it has a non-blank
/// line: the name is the first non-blank line without its leading `#`s,
/// trimmed; the summary is the first paragraph after it (the non-blank lines
/// up to the next blank line or header), joined by spaces and trimmed.
pub open spec fn skill_fields(body: Seq<char>) -> Option<(Seq<char>, Seq<char>)> {
    let ls = lines(body);
    let n = count_while(ls, blank_line());
    if n == ls.len() {
        None
    } else {
        let para = first_paragraph(ls.skip((n + 1) as int));
        Some((trim(strip_hashes(ls[n as int])), trim(join_spaced(para))))
    }
}

/// Neither the name nor the summary of a skill starts or ends with
/// whitespace.
pub proof fn lemma_skill_fields_trimmed(body: Seq<char>)
    ensures
        skill_fields(body) matches Some((name, summary)) ==> {
            &&& name.len() > 0 ==> !is_ws(name[0]) && !is_ws(name.last())
            &&& summary.len() > 0 ==> !is_ws(summary[0]) && !is_ws(summary.last())
        },
{
    let ls = lines(body);
    let n = count_while(ls, blank_line());
    if n != ls.len() {
        lemma_count_while_bounds(ls, blank_line());
        let para = first_paragraph(ls.skip((n + 1) as int));
        lemma_trim_trimmed(strip_hashes(ls[n as int]));
        lemma_trim_trimmed(join_spaced(para));
    }
}

/// Character ranges of the lines of `v`, as `str::lines` splits it.
fn line_ranges(v: &Vec<char>) -> (r: Vec<(usize, usize)>)
    ensures
        r.len() == lines(v@).len(),
        forall|j: int|
            0 <= j < r.len() ==> {
                &&& (#[trigger] r[j]).0 <= r[j].1 <= v.len()
                &&& v@.subrange(r[j].0 as int, r[j].1 as int) == lines(v@)[j]
            },
{
    let n = v.len();
    let mut out: Vec<(usize, usize)> = Vec::new();
    let ghost mut done: Seq<Seq<char>> = seq![];
    let mut start: usize = 0;
    let mut i: usize = 0;
    proof {
        assert(v@.subrange(0, n as int) =~= v@);
        assert(done + lines(v@) =~= lines(v@));
    }
    while i < n
        invariant
            n == v.len(),
            start <= i <= n,
            forall|j: int| start <= j < i ==> #[trigger] v@[j] != '\n',
            out.len() == done.len(),
            forall|j: int|
                0 <= j < out.len() ==> {
                    &&& (#[trigger] out[j]).0 <= out[j].1 <= n
                    &&& v@.subrange(out[j].0 as int, out[j].1 as int) == done[j]
                },
            lines(v@) == done + lines(v@.subrange(start as int, n as int)),
        decreases n - i,
    {
        if v[i] == '\n' {
            let end = if i > start && v[i - 1] == '\r' {
                i - 1
            } else {
                i
            };
            proof {
                let s = v@.subrange(start as int, n as int);
                lemma_count_while(s, not_newline(), i - start);
                assert(s.take(i - start) =~= v@.subrange(start as int, i as int));
                assert(s.skip(i - start + 1) =~= v@.subrange(i + 1, n as int));
                let line = strip_cr(v@.subrange(start as int, i as int));
                assert(line =~= v@.subrange(start as int, end as int));
                assert(lines(s) == seq![line] + lines(v@.subrange(i + 1, n as int)));
                assert(done + lines(s) =~= done.push(line) + lines(v@.subrange(i + 1, n as int)));
                done = done.push(line);
            }
            out.push((start, end));
            start = i + 1;
        }
        i = i + 1;
    }
    if start < n {
        proof {
            let s = v@.subrange(start as int, n as int);
            lemma_count_while(s, not_newline(), n - start);
            assert(lines(s) == seq![s]);
            assert(done + lines(s) =~= done.push(s));
            done = done.push(s);
        }
        out.push((start, n));
    } else {
        proof {
            assert(v@.subrange(start as int, n as int).len() == 0);
            assert(done + lines(v@.subrange(start as int, n as int)) =~= done);
        }
    }
    out
}

/// Whether the line `v[lo..hi]` is blank.
fn range_is_blank(v: &Vec<char>, lo: usize, hi: usize) -> (b: bool)
    requires
        lo <= hi <= v.len(),
    ensures
        b == is_blank(v@.subrange(lo as int, hi as int)),
{
    let (a, c) = trim_bounds(v, lo, hi);
    a == c
}

/// Whether the line `v[lo..hi]` belongs to a paragraph.
fn range_is_paragraph(v: &Vec<char>, lo: usize, hi: usize) -> (b: bool)
    requires
        lo <= hi <= v.len(),
    ensures
        b == (paragraph_line())(v@.subrange(lo as int, hi as int)),
{
    !range_is_blank(v, lo, hi) && !(lo < hi && v[lo] == '#')
}

/// Parse a `SKILL.md` body into a `Skill` definition. The first non-blank
/// line is the skill name; the rest of the first paragraph is the summary.
pub fn parse_skill_md(body: &str, directory: &str) -> (r: Option<Skill>)
    ensures
        r is None <==> skill_fields(body@) is None,
        r matches Some(s) ==> {
            &&& skill_fields(body@) == Some((s.name@, s.summary@))
            &&& s.directory@ == directory@
        },
{
    let v = chars_of(body);
    let nb = line_ranges(&v);
    let ghost ls = lines(v@);
    // The name line: the first non-blank line.
    let mut j: usize = 0;
    while j < nb.len() && range_is_blank(&v, nb[j].0, nb[j].1)
        invariant
            j <= nb.len() == ls.len(),
            ls == lines(v@),
            forall|t: int|
                0 <= t < nb.len() ==> {
                    &&& (#[trigger] nb[t]).0 <= nb[t].1 <= v.len()
                    &&& v@.subrange(nb[t].0 as int, nb[t].1 as int) == ls[t]
                },
            forall|t: int| 0 <= t < j ==> (blank_line())(#[trigger] ls[t]),
        decreases nb.len() - j,
    {
        j = j + 1;
    }
    proof {
        lemma_count_while(ls, blank_line(), j as int);
    }
    if j == nb.len() {
        return None;
    }
    // The name: the name line without leading `#`s, trimmed.

    let (lo, hi) = nb[j];
    let mut a = lo;
    while a < hi && v[a] == '#'
        invariant
            lo <= a <= hi <= v.len(),
            forall|i: int| lo <= i < a ==> #[trigger] v@[i] == '#',
        decreases hi - a,
    {
        a = a + 1;
    }
    proof {
        let s = v@.subrange(lo as int, hi as int);
        lemma_count_while(s, |c: char| c == '#', a - lo);
        assert(s.skip(a - lo) =~= v@.subrange(a as int, hi as int));
    }
    let (x, y) = trim_bounds(&v, a, hi);
    let name = body.substring_char(x, y).to_owned();

    // The summary: the first paragraph after the name line.
    let ghost after = ls.skip(j + 1);
    let mut k: usize = j + 1;
    while k < nb.len() && range_is_blank(&v, nb[k].0, nb[k].1)
        invariant
            j + 1 <= k <= nb.len() == ls.len(),
            after == ls.skip(j + 1),
            forall|t: int|
                0 <= t < nb.len() ==> {
                    &&& (#[trigger] nb[t]).0 <= nb[t].1 <= v.len()
                    &&& v@.subrange(nb[t].0 as int, nb[t].1 as int) == ls[t]
                },
            forall|t: int| 0 <= t < k - (j + 1) ==> (blank_line())(#[trigger] after[t]),
        decreases nb.len() - k,
    {
        proof {
            assert(after[k - (j + 1)] == ls[k as int]);
        }
        k = k + 1;
    }
    proof {
        if k < nb.len() {
            assert(after[k - (j + 1)] == ls[k as int]);
        }
        lemma_count_while(after, blank_line(), k - (j + 1));
    }
    let ghost from = after.skip(k - (j + 1));
    proof {
        assert(from =~= ls.skip(k as int));
    }
    let mut e: usize = k;
    while e < nb.len() && range_is_paragraph(&v, nb[e].0, nb[e].1)
        invariant
            k <= e <= nb.len() == ls.len(),
            from == ls.skip(k as int),
            forall|t: int|
                0 <= t < nb.len() ==> {
                    &&& (#[trigger] nb[t]).0 <= nb[t].1 <= v.len()
                    &&& v@.subrange(nb[t].0 as int, nb[t].1 as int) == ls[t]
                },
            forall|t: int| 0 <= t < e - k ==> (paragraph_line())(#[trigger] from[t]),
        decreases nb.len() - e,
    {
        proof {
            assert(from[e - k] == ls[e as int]);
        }
        e = e + 1;
    }
    proof {
        if e < nb.len() {
            assert(from[e - k] == ls[e as int]);
        }
        lemma_count_while(from, paragraph_line(), e - k);
        assert(first_paragraph(after) == from.take(e - k));
    }
    let ghost para = ls.subrange(k as int, e as int);
    proof {
        assert(from.take(e - k) =~= para);
    }
    let mut joined = String::new();
    let mut jv: Vec<char> = Vec::new();
    let mut t: usize = k;
    while t < e
        invariant
            k <= t <= e <= nb.len() == ls.len(),
            para == ls.subrange(k as int, e as int),
            forall|u: int|
                0 <= u < nb.len() ==> {
                    &&& (#[trigger] nb[u]).0 <= nb[u].1 <= v.len()
                    &&& v@.subrange(nb[u].0 as int, nb[u].1 as int) == ls[u]
                },
            v@ == body@,
            joined@ == jv@,
            jv@ == join_spaced(para.take(t - k)),
        decreases e - t,
    {
        let (lo, hi) = nb[t];
        let ghost before = jv@;
        if t > k {
            joined.append(" ");
            jv.push(' ');
            proof {
                reveal_strlit(" ");
                assert(joined@ =~= jv@);
            }
        }
        let piece = body.substring_char(lo, hi);
        joined.append(piece);
        let mut c = lo;
        let ghost mid = jv@;
        while c < hi
            invariant
                lo <= c <= hi <= v.len(),
                jv@ == mid + v@.subrange(lo as int, c as int),
            decreases hi - c,
        {
            jv.push(v[c]);
            proof {
                assert(v@.subrange(lo as int, c + 1) =~= v@.subrange(lo as int, c as int).push(
                    v@[c as int],
                ));
            }
            c = c + 1;
        }
        proof {
            assert(para.take(t - k + 1).drop_last() =~= para.take(t - k));
            assert(para.take(t - k + 1).last() == ls[t as int]);
            if t > k {
                assert(jv@ =~= before + seq![' '] + ls[t as int]);
            } else {
                assert(para.take(t - k + 1).len() == 1);
                assert(jv@ =~= ls[t as int]);
            }
            assert(joined@ =~= jv@);
        }
        t = t + 1;
    }
    proof {
        assert(para.take(e - k) =~= para);
    }
    let (p, q) = trim_bounds(&jv, 0, jv.len());
    proof {
        assert(jv@.subrange(0, jv.len() as int) =~= jv@);
    }
    let summary = joined.as_str().substring_char(p, q).to_owned();
    Some(Skill { name, summary, directory: directory.to_owned() })
}

} // verus!
