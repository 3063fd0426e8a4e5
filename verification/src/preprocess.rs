//! Line preprocessing: trimming, dropping lines that carry denylisted
//! administrative keywords, and discarding everything before the first
//! session-start marker line.

use vstd::prelude::*;
use crate::strutil::{spec_trim, spec_contains, trim_str, contains_sub};

verus! {

/// A line survives the denylist when it contains none of the keywords.
pub open spec fn line_kept(l: Seq<char>, kws: Seq<Seq<char>>) -> bool {
    forall|i: int| 0 <= i < kws.len() ==> !spec_contains(l, kws[i])
}

/// The fixed denylist of administrative/meta protocol chatter.
pub open spec fn spec_denylist() -> Seq<Seq<char>> {
    seq!["=="@, "ADM"@, "NME"@, "MDF"@, "8 >>"@, "8 <<"@, "GOF"@]
}

/// The denylist as owned strings.
pub fn denylist() -> (r: Vec<String>)
    ensures
        r.deep_view() == spec_denylist(),
{
    let mut out: Vec<String> = Vec::new();
    out.push("==".to_owned());
    out.push("ADM".to_owned());
    out.push("NME".to_owned());
    out.push("MDF".to_owned());
    out.push("8 >>".to_owned());
    out.push("8 <<".to_owned());
    out.push("GOF".to_owned());
    proof {
        assert(out.deep_view() =~= spec_denylist());
    }
    out
}

fn line_kept_exec(l: &str, kws: &Vec<String>) -> (b: bool)
    ensures
        b == line_kept(l@, kws.deep_view()),
{
    let n = kws.len();
    let mut i: usize = 0;
    while i < n
        invariant
            0 <= i <= n,
            n == kws@.len(),
            forall|k: int| 0 <= k < i ==> !spec_contains(l@, kws.deep_view()[k]),
        decreases n - i,
    {
        let kw = &kws[i];
        proof {
            assert(kws.deep_view()[i as int] == kw@);
        }
        if kw.unicode_len() == 0 {
            proof {
                assert(l@.subrange(0, 0) =~= kw@);
                assert(crate::strutil::match_at(l@, kw@, 0));
                assert(spec_contains(l@, kws.deep_view()[i as int]));
            }
            return false;
        }
        if contains_sub(l, kw.as_str()) {
            proof {
                assert(spec_contains(l@, kws.deep_view()[i as int]));
            }
            return false;
        }
        i = i + 1;
    }
    true
}

/// The lines that contain none of the keywords, in their original order.
pub open spec fn spec_filter_lines(ls: Seq<Seq<char>>, kws: Seq<Seq<char>>) -> Seq<Seq<char>>
    decreases ls.len(),
{
    if ls.len() == 0 {
        seq![]
    } else {
        let rest = spec_filter_lines(ls.drop_last(), kws);
        if line_kept(ls.last(), kws) {
            rest.push(ls.last())
        } else {
            rest
        }
    }
}

/// Every line of the filtered result survives the denylist.
pub proof fn lemma_filter_lines_kept(ls: Seq<Seq<char>>, kws: Seq<Seq<char>>, i: int)
    requires
        0 <= i < spec_filter_lines(ls, kws).len(),
    ensures
        line_kept(spec_filter_lines(ls, kws)[i], kws),
    decreases ls.len(),
{
    if ls.len() > 0 {
        let rest = spec_filter_lines(ls.drop_last(), kws);
        if i < rest.len() {
            lemma_filter_lines_kept(ls.drop_last(), kws, i);
        }
    }
}

/// Keeps the lines that contain none of the filter keywords, in order.
/// Every line containing a denylisted substring is absent from the result,
/// wherever it stands.
pub fn filter_lines(lines: Vec<String>, filter_keywords: &Vec<String>) -> (r: Vec<String>)
    ensures
        r.deep_view() == spec_filter_lines(lines.deep_view(), filter_keywords.deep_view()),
        forall|i: int| 0 <= i < r.deep_view().len() ==> line_kept(
            #[trigger] r.deep_view()[i],
            filter_keywords.deep_view(),
        ),
{
    let n = lines.len();
    let mut out: Vec<String> = Vec::new();
    let mut i: usize = 0;
    proof {
        assert(lines.deep_view().take(0) =~= Seq::<Seq<char>>::empty());
        assert(out.deep_view() =~= spec_filter_lines(
            lines.deep_view().take(0),
            filter_keywords.deep_view(),
        ));
    }
    while i < n
        invariant
            0 <= i <= n,
            n == lines@.len(),
            out.deep_view() == spec_filter_lines(
                lines.deep_view().take(i as int),
                filter_keywords.deep_view(),
            ),
        decreases n - i,
    {
        let ghost prefix = lines.deep_view().take(i as int);
        let ghost dv = out.deep_view();
        proof {
            assert(lines.deep_view()[i as int] == lines@[i as int]@);
        }
        let kept = line_kept_exec(lines[i].as_str(), filter_keywords);
        if kept {
            out.push(lines[i].clone());
        }
        proof {
            let next = lines.deep_view().take(i + 1);
            assert(next.drop_last() =~= prefix);
            assert(next.last() == lines.deep_view()[i as int]);
            if kept {
                assert(out.deep_view() =~= dv.push(lines.deep_view()[i as int]));
            } else {
                assert(out.deep_view() =~= dv);
            }
        }
        i = i + 1;
    }
    proof {
        assert(lines.deep_view().take(n as int) =~= lines.deep_view());
        let d = out.deep_view();
        assert forall|i: int| 0 <= i < d.len() implies line_kept(
            #[trigger] d[i],
            filter_keywords.deep_view(),
        ) by {
            lemma_filter_lines_kept(lines.deep_view(), filter_keywords.deep_view(), i);
        }
    }
    out
}

/// The index of the first line at or after `i` that contains `p`.
pub open spec fn first_line_with(ls: Seq<Seq<char>>, p: Seq<char>, i: int) -> Option<int>
    decreases ls.len() - i,
{
    if i < 0 || i >= ls.len() {
        None
    } else if spec_contains(ls[i], p) {
        Some(i)
    } else {
        first_line_with(ls, p, i + 1)
    }
}

pub proof fn lemma_first_line_props(ls: Seq<Seq<char>>, p: Seq<char>, i: int)
    requires
        0 <= i,
    ensures
        match first_line_with(ls, p, i) {
            Some(j) => i <= j < ls.len() && spec_contains(ls[j], p) && forall|k: int|
                i <= k < j ==> !spec_contains(ls[k], p),
            None => forall|k: int| i <= k < ls.len() ==> !spec_contains(ls[k], p),
        },
    decreases ls.len() - i,
{
    if 0 <= i < ls.len() && !spec_contains(ls[i], p) {
        lemma_first_line_props(ls, p, i + 1);
    }
}

/// Removes every line preceding the first line that contains the
/// session-start marker; if no line contains it, the result is empty.
/// All input lines before the first session-start marker are excluded from
/// the output entirely.
pub fn remove_preceding_entries(lines: Vec<String>) -> (r: Vec<String>)
    ensures
        match first_line_with(lines.deep_view(), "HLO"@, 0) {
            Some(i) => r.deep_view() == lines.deep_view().skip(i),
            None => r.deep_view().len() == 0,
        },
{
    let n = lines.len();
    let mut i: usize = 0;
    proof {
        reveal_strlit("HLO");
    }
    while i < n
        invariant
            0 <= i <= n,
            n == lines@.len(),
            "HLO"@.len() > 0,
            forall|k: int| 0 <= k < i ==> !spec_contains(lines.deep_view()[k], "HLO"@),
        decreases n - i,
    {
        proof {
            assert(lines.deep_view()[i as int] == lines@[i as int]@);
        }
        if contains_sub(lines[i].as_str(), "HLO") {
            proof {
                assert(spec_contains(lines.deep_view()[i as int], "HLO"@));
                lemma_first_line_props(lines.deep_view(), "HLO"@, 0);
                match first_line_with(lines.deep_view(), "HLO"@, 0) {
                    Some(j) => {
                        if j < i {
                            assert(!spec_contains(lines.deep_view()[j], "HLO"@));
                        }
                        if j > i {
                            assert(!spec_contains(lines.deep_view()[i as int], "HLO"@));
                        }
                    },
                    None => {
                        assert(!spec_contains(lines.deep_view()[i as int], "HLO"@));
                    },
                }
            }
            let mut out: Vec<String> = Vec::new();
            let mut j: usize = i;
            proof {
                assert(out.deep_view() =~= lines.deep_view().subrange(i as int, i as int));
            }
            while j < n
                invariant
                    i <= j <= n,
                    n == lines@.len(),
                    out.deep_view() == lines.deep_view().subrange(i as int, j as int),
                decreases n - j,
            {
                let ghost dv = out.deep_view();
                out.push(lines[j].clone());
                proof {
                    assert(out.deep_view() =~= dv.push(lines.deep_view()[j as int]));
                    assert(lines.deep_view().subrange(i as int, j + 1) =~= lines.deep_view()
                        .subrange(i as int, j as int).push(lines.deep_view()[j as int]));
                }
                j = j + 1;
            }
            proof {
                assert(lines.deep_view().subrange(i as int, n as int) =~= lines.deep_view().skip(
                    i as int,
                ));
            }
            return out;
        }
        i = i + 1;
    }
    proof {
        lemma_first_line_props(lines.deep_view(), "HLO"@, 0);
        match first_line_with(lines.deep_view(), "HLO"@, 0) {
            Some(j) => {
                assert(!spec_contains(lines.deep_view()[j], "HLO"@));
            },
            None => {},
        }
    }
    Vec::new()
}

/// Every line trimmed, in order.
pub open spec fn spec_trim_lines(ls: Seq<Seq<char>>) -> Seq<Seq<char>> {
    Seq::new(ls.len(), |i: int| spec_trim(ls[i]))
}

/// The full preprocessing pass: trim every line, drop denylisted lines,
/// then discard everything before the first session-start marker.
pub open spec fn spec_preprocess(ls: Seq<Seq<char>>) -> Seq<Seq<char>> {
    let f = spec_filter_lines(spec_trim_lines(ls), spec_denylist());
    match first_line_with(f, "HLO"@, 0) {
        Some(i) => f.skip(i),
        None => Seq::empty(),
    }
}

/// Trims every line of the input, in order.
pub fn trim_all(lines: &Vec<String>) -> (r: Vec<String>)
    ensures
        r.deep_view() == spec_trim_lines(lines.deep_view()),
{
    let n = lines.len();
    let mut out: Vec<String> = Vec::new();
    let mut i: usize = 0;
    while i < n
        invariant
            0 <= i <= n,
            n == lines@.len(),
            out@.len() == i,
            forall|k: int| 0 <= k < i ==> out.deep_view()[k] == spec_trim(
                #[trigger] lines.deep_view()[k],
            ),
        decreases n - i,
    {
        proof {
            assert(lines.deep_view()[i as int] == lines@[i as int]@);
        }
        out.push(trim_str(lines[i].as_str()).to_owned());
        proof {
            assert(out.deep_view()[i as int] == out@[i as int]@);
        }
        i = i + 1;
    }
    proof {
        assert(out.deep_view() =~= spec_trim_lines(lines.deep_view()));
    }
    out
}

/// Runs the whole preprocessing pass, as `spec_preprocess` describes.
pub fn preprocess_lines(lines: Vec<String>) -> (r: Vec<String>)
    ensures
        r.deep_view() == spec_preprocess(lines.deep_view()),
{
    let trimmed = trim_all(&lines);
    let kws = denylist();
    let filtered = filter_lines(trimmed, &kws);
    remove_preceding_entries(filtered)
}

} // verus!
