//! The report table: `Name | Version | Latest`, column-aligned on visible
//! text width, with the drifted field of each version emphasized.
//!
//! Widths are computed from the plain rendering of each cell, never from
//! styled text, so emphasis markup adds no padding error.  Whether emphasis
//! is actually emitted depends on the process-wide colorizing switch, so
//! the table is pinned up to one choice per styled cell.

use vstd::prelude::*;

verus! {

use crate::dependencies::{DepView, Dependencies};
use crate::style::{bold_if, no_esc, paint_bold, style_if};
use crate::versions::{
    spec_render_version,
    spec_styled_version,
    version_plain_string,
    version_to_string,
};

/// `n` spaces.
pub open spec fn spaces(n: int) -> Seq<char>
    decreases n,
{
    if n <= 0 {
        Seq::<char>::empty()
    } else {
        spaces(n - 1).push(' ')
    }
}

/// `s` padded with spaces to width `w`.
pub open spec fn pad_to(s: Seq<char>, w: int) -> Seq<char> {
    s + spaces(w - s.len())
}

pub open spec fn header_name() -> Seq<char> {
    seq!['N', 'a', 'm', 'e']
}

pub open spec fn header_version() -> Seq<char> {
    seq!['V', 'e', 'r', 's', 'i', 'o', 'n']
}

pub open spec fn header_latest() -> Seq<char> {
    seq!['L', 'a', 't', 'e', 's', 't']
}

/// The widest visible name, the `Name` header included.
pub open spec fn max_name_len(deps: Seq<DepView>) -> int
    decreases deps.len(),
{
    if deps.len() == 0 {
        header_name().len() as int
    } else {
        let rest = max_name_len(deps.drop_last());
        let l = deps.last().name.len() as int;
        if l > rest {
            l
        } else {
            rest
        }
    }
}

/// The widest visible declared-version text, the `Version` header included.
pub open spec fn max_version_len(deps: Seq<DepView>) -> int
    decreases deps.len(),
{
    if deps.len() == 0 {
        header_version().len() as int
    } else {
        let rest = max_version_len(deps.drop_last());
        let l = spec_render_version(deps.last().version).len() as int;
        if l > rest {
            l
        } else {
            rest
        }
    }
}

/// The name column: widest visible name plus fixed padding.
pub open spec fn name_col_width(deps: Seq<DepView>) -> int {
    max_name_len(deps) + 3
}

/// The version column: widest visible declared version plus fixed padding.
pub open spec fn version_col_width(deps: Seq<DepView>) -> int {
    max_version_len(deps) + 3
}

/// The header line: the three titles, each bold up to its own choice,
/// padded on visible width.
pub open spec fn spec_header(deps: Seq<DepView>, hb: (bool, bool, bool)) -> Seq<char> {
    bold_if(header_name(), hb.0) + spaces(name_col_width(deps) - header_name().len()) + bold_if(
        header_version(),
        hb.1,
    ) + spaces(version_col_width(deps) - header_version().len()) + bold_if(header_latest(), hb.2)
}

/// One table row: the padded name, the styled declared version padded on
/// its plain width, and the styled latest version.
pub open spec fn spec_row(d: DepView, nw: int, vw: int, b1: bool, b2: bool) -> Seq<char> {
    pad_to(d.name, nw) + spec_styled_version(d.version, d.diff, b1) + spaces(
        vw - spec_render_version(d.version).len(),
    ) + spec_styled_version(d.latest, d.diff, b2)
}

/// The rows in set order, each on a fresh line.
pub open spec fn spec_rows(deps: Seq<DepView>, nw: int, vw: int, flags: Seq<(bool, bool)>) -> Seq<
    char,
>
    decreases deps.len(),
{
    if deps.len() == 0 {
        Seq::<char>::empty()
    } else {
        spec_rows(deps.drop_last(), nw, vw, flags.drop_last()) + seq!['\n'] + spec_row(
            deps.last(),
            nw,
            vw,
            flags.last().0,
            flags.last().1,
        )
    }
}

/// The whole table: header, then one row per entry.
pub open spec fn spec_table(deps: Seq<DepView>, hb: (bool, bool, bool), flags: Seq<
    (bool, bool),
>) -> Seq<char> {
    spec_header(deps, hb) + spec_rows(deps, name_col_width(deps), version_col_width(deps), flags)
}

/// Whether a dependency's version fields may meet the styling wrappers:
/// free of the terminal escape character.
pub open spec fn table_renderable(d: DepView) -> bool {
    no_esc(d.version.pre) && no_esc(d.version.build) && no_esc(d.latest.pre) && no_esc(
        d.latest.build,
    )
}

proof fn lemma_max_name_ge(deps: Seq<DepView>, i: int)
    requires
        0 <= i < deps.len(),
    ensures
        deps[i].name.len() <= max_name_len(deps),
    decreases deps.len(),
{
    if i < deps.len() - 1 {
        lemma_max_name_ge(deps.drop_last(), i);
    }
}

proof fn lemma_max_version_ge(deps: Seq<DepView>, i: int)
    requires
        0 <= i < deps.len(),
    ensures
        spec_render_version(deps[i].version).len() <= max_version_len(deps),
    decreases deps.len(),
{
    if i < deps.len() - 1 {
        lemma_max_version_ge(deps.drop_last(), i);
    }
}

/// A string of `n` spaces.
fn make_spaces(n: usize) -> (r: String)
    ensures
        r@ == spaces(n as int),
{
    proof {
        reveal_strlit(" ");
    }
    let mut s = String::new();
    let mut i: usize = 0;
    while i < n
        invariant
            i <= n,
            s@ == spaces(i as int),
        decreases n - i,
    {
        proof {
            reveal_strlit(" ");
        }
        s.append(" ");
        assert(s@ =~= spaces(i + 1));
        i = i + 1;
    }
    s
}

impl Dependencies {
    /// Render the aligned report table.  Column widths come from the
    /// visible text of headers and cells; emphasis markup never widens a
    /// column.
    #[verifier::rlimit(60)]
    pub fn render_table(&self) -> (r: String)
        requires
            forall|i: int| 0 <= i < self@.len() ==> table_renderable(#[trigger] self@[i]),
            name_col_width(self@) <= usize::MAX,
            version_col_width(self@) <= usize::MAX,
        ensures
            exists|hb: (bool, bool, bool), flags: Seq<(bool, bool)>|
                flags.len() == self@.len() && r@ == spec_table(self@, hb, flags),
    {
        proof {
            reveal_strlit("Name");
            reveal_strlit("Version");
            reveal_strlit("Latest");
            reveal_strlit("\n");
        }
        assert("Name"@ =~= header_name());
        assert("Version"@ =~= header_version());
        assert("Latest"@ =~= header_latest());
        // column widths, from visible text only
        let mut name_max: usize = 4;
        let mut version_max: usize = 7;
        let mut i: usize = 0;
        while i < self.len()
            invariant
                i <= self@.len(),
                name_max >= 4,
                version_max >= 7,
                name_max as int == max_name_len(self@.subrange(0, i as int)),
                version_max as int == max_version_len(self@.subrange(0, i as int)),
                name_col_width(self@) <= usize::MAX,
                version_col_width(self@) <= usize::MAX,
            decreases self@.len() - i,
        {
            proof {
                assert(self@.subrange(0, i + 1).drop_last() =~= self@.subrange(0, i as int));
                assert(self@.subrange(0, i + 1).last() == self@[i as int]);
            }
            let d = self.get(i);
            let nlen = d.name().as_str().unicode_len();
            if nlen > name_max {
                name_max = nlen;
            }
            let plain = version_plain_string(d.version());
            let plen = plain.as_str().unicode_len();
            if plen > version_max {
                version_max = plen;
            }
            i = i + 1;
        }
        proof {
            assert(self@.subrange(0, self@.len() as int) =~= self@);
        }
        let name_w = name_max + 3;
        let version_w = version_max + 3;
        // header
        assert(no_esc(header_name()));
        assert(no_esc(header_version()));
        assert(no_esc(header_latest()));
        let hn = paint_bold("Name");
        let hv = paint_bold("Version");
        let hl = paint_bold("Latest");
        let ghost hb = (
            hn@ != header_name(),
            hv@ != header_version(),
            hl@ != header_latest(),
        );
        let mut out = hn;
        let pad = make_spaces(name_w - 4);
        out.append(pad.as_str());
        out.append(hv.as_str());
        let pad = make_spaces(version_w - 7);
        out.append(pad.as_str());
        out.append(hl.as_str());
        assert(out@ =~= spec_header(self@, hb));
        // rows
        let ghost mut flags: Seq<(bool, bool)> = Seq::empty();
        let mut i: usize = 0;
        while i < self.len()
            invariant
                i <= self@.len(),
                flags.len() == i,
                name_w as int == name_col_width(self@),
                version_w as int == version_col_width(self@),
                forall|k: int| 0 <= k < self@.len() ==> table_renderable(#[trigger] self@[k]),
                out@ == spec_header(self@, hb) + spec_rows(
                    self@.subrange(0, i as int),
                    name_col_width(self@),
                    version_col_width(self@),
                    flags,
                ),
            decreases self@.len() - i,
        {
            proof {
                reveal_strlit("\n");
                lemma_max_name_ge(self@, i as int);
                lemma_max_version_ge(self@, i as int);
            }
            let ghost prev_out = out@;
            let d = self.get(i);
            out.append("\n");
            out.append(d.name().as_str());
            let nlen = d.name().as_str().unicode_len();
            let pad = make_spaces(name_w - nlen);
            out.append(pad.as_str());
            let dv = d.version_diff();
            let vs = version_to_string(d.version(), &dv);
            let ghost b1 = choose|b: bool|
                vs@ == spec_styled_version(self@[i as int].version, self@[i as int].diff, b);
            assert(vs@ == spec_styled_version(self@[i as int].version, self@[i as int].diff, b1));
            out.append(vs.as_str());
            let plain = version_plain_string(d.version());
            let plen = plain.as_str().unicode_len();
            let pad = make_spaces(version_w - plen);
            out.append(pad.as_str());
            let ls = version_to_string(d.latest_version(), &dv);
            let ghost b2 = choose|b: bool|
                ls@ == spec_styled_version(self@[i as int].latest, self@[i as int].diff, b);
            assert(ls@ == spec_styled_version(self@[i as int].latest, self@[i as int].diff, b2));
            out.append(ls.as_str());
            proof {
                let nw = name_col_width(self@);
                let vw = version_col_width(self@);
                let newflags = flags.push((b1, b2));
                assert(self@.subrange(0, i + 1).drop_last() =~= self@.subrange(0, i as int));
                assert(self@.subrange(0, i + 1).last() == self@[i as int]);
                assert(newflags.drop_last() =~= flags);
                assert(newflags.last() == (b1, b2));
                assert(spec_rows(self@.subrange(0, i + 1), nw, vw, newflags) == spec_rows(
                    self@.subrange(0, i as int),
                    nw,
                    vw,
                    flags,
                ) + seq!['\n'] + spec_row(self@[i as int], nw, vw, b1, b2));
                assert(out@ =~= prev_out + seq!['\n'] + spec_row(self@[i as int], nw, vw, b1, b2));
                assert(out@ =~= spec_header(self@, hb) + spec_rows(
                    self@.subrange(0, i + 1),
                    nw,
                    vw,
                    newflags,
                ));
                flags = newflags;
            }
            i = i + 1;
        }
        proof {
            assert(self@.subrange(0, self@.len() as int) =~= self@);
            assert(out@ == spec_table(self@, hb, flags));
        }
        out
    }
}

} // verus!
