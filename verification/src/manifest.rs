//! Reading the dependency listing: the plain-text output of the package
//! manager's tree listing, one dependency per line after a heading line,
//! each line `name vVERSION ...` separated by single spaces.

use vstd::prelude::*;

verus! {

use crate::versions::{find_from, find_in, lemma_find_in_at, lemma_find_in_props};

/// The lines of `s`: segments split on `'\n'`, without a trailing empty
/// segment when the text ends with a newline.
pub open spec fn spec_split_lines(s: Seq<char>) -> Seq<Seq<char>>
    decreases s.len(),
{
    if s.len() == 0 {
        Seq::<Seq<char>>::empty()
    } else {
        let nl = find_in(s, '\n', 0, s.len() as int);
        if 0 <= nl < s.len() {
            seq![s.subrange(0, nl)] + spec_split_lines(s.subrange(nl + 1, s.len() as int))
        } else {
            seq![s]
        }
    }
}

/// Whether a listing line holds a second token: a space before its end.
pub open spec fn line_has_version(l: Seq<char>) -> bool {
    find_in(l, ' ', 0, l.len() as int) < l.len()
}

/// The first token of a listing line: the dependency name.
pub open spec fn line_name(l: Seq<char>) -> Seq<char> {
    l.subrange(0, find_in(l, ' ', 0, l.len() as int))
}

/// The second token of a listing line with its leading version marker
/// dropped: the declared version text.
pub open spec fn line_version(l: Seq<char>) -> Seq<char> {
    let sp1 = find_in(l, ' ', 0, l.len() as int);
    let sp2 = find_in(l, ' ', sp1 + 1, l.len() as int);
    let tok = l.subrange(sp1 + 1, sp2);
    if tok.len() >= 1 {
        tok.drop_first()
    } else {
        tok
    }
}

/// A listing line that does not hold a name and a version token.
#[derive(Clone, Copy, PartialEq, Eq, Structural, Debug)]
pub struct ManifestError {
    /// The offending line's position in the listing.
    pub line: usize,
}

/// The entries read so far match the listing lines, one per line after
/// the heading.
pub open spec fn entries_match(lines: Seq<Seq<char>>, out: Seq<(String, String)>) -> bool {
    forall|j: int|
        #![trigger lines[j]]
        1 <= j < out.len() + 1 ==> line_has_version(lines[j]) && out[j - 1].0@ == line_name(
            lines[j],
        ) && out[j - 1].1@ == line_version(lines[j])
}

/// Read the dependency listing: skip the heading line, and take from every
/// further line its first token as the name and its second token, leading
/// marker dropped, as the declared version text.  Fails on the first line
/// that has no second token.
pub fn parse_dep_lines(output: &str) -> (r: Result<Vec<(String, String)>, ManifestError>)
    ensures
        match r {
            Ok(v) => {
                let lines = spec_split_lines(output@);
                &&& v@.len() == (if lines.len() == 0 {
                    0int
                } else {
                    lines.len() - 1
                })
                &&& entries_match(lines, v@)
            },
            Err(e) => {
                let lines = spec_split_lines(output@);
                &&& 1 <= e.line < lines.len()
                &&& !line_has_version(lines[e.line as int])
                &&& forall|j: int| 1 <= j < e.line ==> line_has_version(#[trigger] lines[j])
            },
        },
{
    let n = output.unicode_len();
    let ghost whole = output@;
    let ghost lines = spec_split_lines(whole);
    // locate every line as a pair of bounds into the text
    let mut bounds: Vec<(usize, usize)> = Vec::new();
    let mut start: usize = 0;
    proof {
        assert(lines.skip(0) =~= lines);
        assert(whole.subrange(0, n as int) =~= whole);
    }
    while start < n
        invariant
            start <= n,
            n == whole.len(),
            whole == output@,
            lines == spec_split_lines(whole),
            bounds@.len() <= lines.len(),
            forall|k: int|
                0 <= k < bounds@.len() ==> {
                    &&& (#[trigger] bounds@[k]).0 <= bounds@[k].1 <= n
                    &&& lines[k] == whole.subrange(bounds@[k].0 as int, bounds@[k].1 as int)
                },
            spec_split_lines(whole.subrange(start as int, n as int)) == lines.skip(
                bounds@.len() as int,
            ),
        decreases n - start,
    {
        let nl = find_from(output, '\n', start, n);
        proof {
            let suf = whole.subrange(start as int, n as int);
            let m = bounds@.len() as int;
            lemma_find_in_props(whole, '\n', start as int, n as int);
            assert forall|j: int| 0 <= j < nl - start implies suf[j] != '\n' by {
                assert(suf[j] == whole[start + j]);
            }
            if (nl as int) < n {
                assert(suf[nl - start] == whole[nl as int]);
            }
            lemma_find_in_at(suf, '\n', 0, suf.len() as int, nl - start);
            if nl == n {
                assert(spec_split_lines(suf) == seq![suf]);
                assert(lines.skip(m)[0] == lines[m]);
                assert(lines[m] == suf);
                assert(suf =~= whole.subrange(start as int, nl as int));
                assert(lines.skip(m + 1).len() == 0);
                assert(whole.subrange(n as int, n as int).len() == 0);
                assert(spec_split_lines(whole.subrange(n as int, n as int)) =~= lines.skip(m + 1));
            } else {
                assert(suf.subrange(0, nl - start) =~= whole.subrange(start as int, nl as int));
                assert(suf.subrange(nl - start + 1, suf.len() as int) =~= whole.subrange(
                    nl + 1,
                    n as int,
                ));
                assert(spec_split_lines(suf) == seq![whole.subrange(start as int, nl as int)]
                    + spec_split_lines(whole.subrange(nl + 1, n as int)));
                assert(lines.skip(m)[0] == lines[m]);
                assert(lines[m] == whole.subrange(start as int, nl as int));
                let rest = spec_split_lines(whole.subrange(nl + 1, n as int));
                assert(rest.len() == lines.len() - m - 1);
                assert forall|t: int| 0 <= t < rest.len() implies rest[t] == lines.skip(m + 1)[t] by {
                    assert(rest[t] == spec_split_lines(suf)[t + 1]);
                    assert(lines.skip(m)[t + 1] == lines[m + 1 + t]);
                    assert(lines.skip(m + 1)[t] == lines[m + 1 + t]);
                }
                assert(rest =~= lines.skip(m + 1));
            }
        }
        bounds.push((start, nl));
        if nl == n {
            start = n;
        } else {
            start = nl + 1;
        }
    }
    proof {
        assert(whole.subrange(start as int, n as int).len() == 0);
        assert(spec_split_lines(whole.subrange(start as int, n as int)).len() == 0);
        assert(lines.len() == bounds@.len());
    }
    // read each dependency line after the heading
    let mut out: Vec<(String, String)> = Vec::new();
    if bounds.len() == 0 {
        return Ok(out);
    }
    let mut i: usize = 1;
    while i < bounds.len()
        invariant
            1 <= i <= bounds@.len(),
            n == whole.len(),
            whole == output@,
            lines == spec_split_lines(whole),
            lines.len() == bounds@.len(),
            out@.len() == i - 1,
            forall|k: int|
                0 <= k < bounds@.len() ==> {
                    &&& (#[trigger] bounds@[k]).0 <= bounds@[k].1 <= n
                    &&& lines[k] == whole.subrange(bounds@[k].0 as int, bounds@[k].1 as int)
                },
            entries_match(lines, out@),
        decreases bounds@.len() - i,
    {
        let ls = bounds[i].0;
        let le = bounds[i].1;
        let ghost l = whole.subrange(ls as int, le as int);
        assert(l == lines[i as int]);
        let sp1 = find_from(output, ' ', ls, le);
        proof {
            lemma_find_in_props(whole, ' ', ls as int, le as int);
            assert forall|j: int| 0 <= j < sp1 - ls implies l[j] != ' ' by {
                assert(l[j] == whole[ls + j]);
            }
            if (sp1 as int) < le {
                assert(l[sp1 - ls] == whole[sp1 as int]);
            }
            lemma_find_in_at(l, ' ', 0, l.len() as int, sp1 - ls);
        }
        if sp1 == le {
            proof {
                assert forall|j: int| 1 <= j < i implies line_has_version(
                    #[trigger] lines[j],
                ) by {
                }
            }
            return Err(ManifestError { line: i });
        }
        let sp2 = find_from(output, ' ', sp1 + 1, le);
        proof {
            lemma_find_in_props(whole, ' ', sp1 + 1, le as int);
            assert forall|j: int| sp1 - ls + 1 <= j < sp2 - ls implies l[j] != ' ' by {
                assert(l[j] == whole[ls + j]);
            }
            if (sp2 as int) < le {
                assert(l[sp2 - ls] == whole[sp2 as int]);
            }
            lemma_find_in_at(l, ' ', sp1 - ls + 1, l.len() as int, sp2 - ls);
        }
        let name = output.substring_char(ls, sp1).to_owned();
        let version: String = if sp2 > sp1 + 1 {
            output.substring_char(sp1 + 2, sp2).to_owned()
        } else {
            String::new()
        };
        proof {
            assert(name@ =~= line_name(l));
            let tok = l.subrange(sp1 - ls + 1, sp2 - ls);
            if tok.len() >= 1 {
                assert(tok.drop_first() =~= whole.subrange(sp1 + 2, sp2 as int));
            }
            assert(version@ =~= line_version(l));
        }
        let ghost prev_out = out@;
        out.push((name, version));
        proof {
            assert(out@[i - 1] == (name, version));
            assert(line_has_version(lines[i as int]));
            assert(entries_match(lines, out@)) by {
                assert forall|j: int|
                    #![trigger lines[j]]
                    1 <= j < out@.len() + 1 implies line_has_version(lines[j]) && out@[j - 1].0@
                    == line_name(lines[j]) && out@[j - 1].1@ == line_version(lines[j]) by {
                    if j - 1 < prev_out.len() {
                        assert(out@[j - 1] == prev_out[j - 1]);
                    } else {
                        assert(out@[j - 1] == (name, version));
                        assert(lines[j] == lines[i as int]);
                    }
                }
            }
        }
        i = i + 1;
    }
    Ok(out)
}

} // verus!
