//! The version model and the drift classifier.
//!
//! A version is five plain fields: three numeric components and two opaque
//! identifier strings (pre-release and build metadata, empty when absent).
//! The classifier compares two versions field by field in a fixed precedence
//! order and reports the most significant field that differs.

use vstd::prelude::*;

verus! {

use crate::decimal::{
    digit_val,
    digits_val,
    is_digit_char,
    lemma_digits_val_bound,
    lemma_pow10_monotone,
    lemma_spec_dec_digits,
    pow10,
    spec_dec,
    u64_to_string,
};
use crate::style::{no_esc, paint_red, style_if};

/// The severity of the drift between two versions: the most significant
/// field that differs, in the fixed precedence order
/// `Major > Minor > Patch > Pre > Build > Same`.
#[derive(Clone, Copy, PartialEq, Eq, Structural, Debug)]
pub enum VersionDiff {
    Major,
    Minor,
    Patch,
    Pre,
    Build,
    Same,
}

/// The mathematical value of a version: what [`Version`] stands for in
/// every contract of this crate.
pub ghost struct VersionView {
    pub major: int,
    pub minor: int,
    pub patch: int,
    pub pre: Seq<char>,
    pub build: Seq<char>,
}

/// A version: `major.minor.patch`, optionally `-pre` and `+build`.
/// Immutable once constructed; the pre-release and build fields are opaque
/// identifier strings, empty when absent.
#[derive(PartialEq, Eq, Debug)]
pub struct Version {
    pub major: u64,
    pub minor: u64,
    pub patch: u64,
    pub pre: String,
    pub build: String,
}

impl View for Version {
    type V = VersionView;

    open spec fn view(&self) -> VersionView {
        VersionView {
            major: self.major as int,
            minor: self.minor as int,
            patch: self.patch as int,
            pre: self.pre@,
            build: self.build@,
        }
    }
}

/// The drift between `a` and `b`: the first field, in precedence order,
/// on which the two differ.  Each comparison is a plain equality test, so
/// the result does not depend on which argument came from the manifest and
/// which from the registry.
pub open spec fn spec_version_diff(a: VersionView, b: VersionView) -> VersionDiff {
    if a.major != b.major {
        VersionDiff::Major
    } else if a.minor != b.minor {
        VersionDiff::Minor
    } else if a.patch != b.patch {
        VersionDiff::Patch
    } else if a.pre != b.pre {
        VersionDiff::Pre
    } else if a.build != b.build {
        VersionDiff::Build
    } else {
        VersionDiff::Same
    }
}

/// Classify the drift from `version_a` to `version_b`.
pub fn get_version_diff(version_a: &Version, version_b: &Version) -> (d: VersionDiff)
    ensures
        d == spec_version_diff(version_a@, version_b@),
{
    if version_a.major != version_b.major {
        return VersionDiff::Major;
    }
    if version_a.minor != version_b.minor {
        return VersionDiff::Minor;
    }
    if version_a.patch != version_b.patch {
        return VersionDiff::Patch;
    }
    if !(version_a.pre == version_b.pre) {
        return VersionDiff::Pre;
    }
    if !(version_a.build == version_b.build) {
        return VersionDiff::Build;
    }
    VersionDiff::Same
}

/// A version never drifts from itself.
pub proof fn lemma_version_diff_reflexive(v: VersionView)
    ensures
        spec_version_diff(v, v) == VersionDiff::Same,
{
}

/// Classification is symmetric: every field comparison is an equality
/// test, so swapping the arguments never changes the answer.
pub proof fn lemma_version_diff_symmetric(a: VersionView, b: VersionView)
    ensures
        spec_version_diff(a, b) == spec_version_diff(b, a),
{
}

/// Precedence: the most significant differing field alone decides the
/// classification; once a field differs, later fields are never consulted.
pub proof fn lemma_version_diff_precedence(a: VersionView, b: VersionView)
    ensures
        a.major != b.major ==> spec_version_diff(a, b) == VersionDiff::Major,
        a.major == b.major && a.minor != b.minor ==> spec_version_diff(a, b)
            == VersionDiff::Minor,
        a.major == b.major && a.minor == b.minor && a.patch != b.patch ==> spec_version_diff(a, b)
            == VersionDiff::Patch,
        a.major == b.major && a.minor == b.minor && a.patch == b.patch && a.pre != b.pre
            ==> spec_version_diff(a, b) == VersionDiff::Pre,
        a.major == b.major && a.minor == b.minor && a.patch == b.patch && a.pre == b.pre
            && a.build != b.build ==> spec_version_diff(a, b) == VersionDiff::Build,
        a.major == b.major && a.minor == b.minor && a.patch == b.patch && a.pre == b.pre
            && a.build == b.build ==> spec_version_diff(a, b) == VersionDiff::Same,
{
}

impl Clone for Version {
    /// A clone is equal to the original, field by field.
    fn clone(&self) -> (r: Self)
        ensures
            r == *self,
    {
        Version {
            major: self.major,
            minor: self.minor,
            patch: self.patch,
            pre: self.pre.clone(),
            build: self.build.clone(),
        }
    }
}

/// The version text did not match the version grammar.
#[derive(Clone, Copy, PartialEq, Eq, Structural, Debug)]
pub struct VersionParseError;

/// The first position in `[from, end)` where `c` occurs in `s`, or `end`
/// when it does not.
pub open spec fn find_in(s: Seq<char>, c: char, from: int, end: int) -> int
    recommends
        0 <= from,
        end <= s.len(),
    decreases end - from,
{
    if from >= end {
        end
    } else if s[from] == c {
        from
    } else {
        find_in(s, c, from + 1, end)
    }
}

pub(crate) proof fn lemma_find_in_at(s: Seq<char>, c: char, from: int, end: int, i: int)
    requires
        0 <= from <= i <= end <= s.len(),
        forall|j: int| from <= j < i ==> s[j] != c,
        i == end || s[i] == c,
    ensures
        find_in(s, c, from, end) == i,
    decreases i - from,
{
    if from < i {
        lemma_find_in_at(s, c, from + 1, end, i);
    }
}

/// What the first-occurrence index means: nothing before it matches, and
/// it points at a match unless it is `end`.
pub(crate) proof fn lemma_find_in_props(s: Seq<char>, c: char, from: int, end: int)
    requires
        0 <= from <= end <= s.len(),
    ensures
        from <= find_in(s, c, from, end) <= end,
        forall|j: int| from <= j < find_in(s, c, from, end) ==> s[j] != c,
        find_in(s, c, from, end) < end ==> s[find_in(s, c, from, end)] == c,
    decreases end - from,
{
    if from < end && s[from] != c {
        lemma_find_in_props(s, c, from + 1, end);
    }
}

/// Scan `s` for `c` within `[from, end)`.
pub(crate) fn find_from(s: &str, c: char, from: usize, end: usize) -> (i: usize)
    requires
        from <= end,
        end <= s@.len(),
    ensures
        from <= i <= end,
        i as int == find_in(s@, c, from as int, end as int),
{
    let mut i = from;
    while i < end
        invariant
            from <= i <= end,
            end <= s@.len(),
            forall|j: int| from <= j < i ==> s@[j] != c,
        decreases end - i,
    {
        if s.get_char(i) == c {
            proof {
                lemma_find_in_at(s@, c, from as int, end as int, i as int);
            }
            return i;
        }
        i = i + 1;
    }
    proof {
        lemma_find_in_at(s@, c, from as int, end as int, i as int);
    }
    i
}

/// Whether `c` may stand in a pre-release or build identifier: an ASCII
/// letter, a digit, a hyphen or a dot.
pub open spec fn valid_ident_char(c: char) -> bool {
    ||| is_digit_char(c)
    ||| 'a' as u32 <= c as u32 && c as u32 <= 'z' as u32
    ||| 'A' as u32 <= c as u32 && c as u32 <= 'Z' as u32
    ||| c == '-'
    ||| c == '.'
}

/// A non-empty identifier of valid characters.
pub open spec fn valid_ident(s: Seq<char>) -> bool {
    s.len() > 0 && forall|i: int| 0 <= i < s.len() ==> valid_ident_char(#[trigger] s[i])
}

/// A numeric version component: one to nineteen decimal digits with no
/// leading zero.  Nineteen digits keep every component below `10^19`,
/// so each fits a `u64`.
pub open spec fn valid_number(s: Seq<char>) -> bool {
    &&& 1 <= s.len() <= 19
    &&& forall|i: int| 0 <= i < s.len() ==> is_digit_char(#[trigger] s[i])
    &&& s.len() > 1 ==> s[0] != '0'
}

/// What a version text denotes, if anything: `major.minor.patch`, then
/// `-pre` when a hyphen precedes any plus sign, then `+build` after the
/// first plus sign.  `None` when the text does not match the grammar.
pub open spec fn spec_parse(s: Seq<char>) -> Option<VersionView> {
    let n = s.len() as int;
    let plus = find_in(s, '+', 0, n);
    let dash = find_in(s, '-', 0, n);
    let core_end = if dash < plus {
        dash
    } else {
        plus
    };
    let i1 = find_in(s, '.', 0, core_end);
    let i2 = find_in(s, '.', i1 + 1, core_end);
    let i3 = find_in(s, '.', i2 + 1, core_end);
    if i1 == core_end || i2 == core_end || i3 != core_end {
        None
    } else if !(valid_number(s.subrange(0, i1)) && valid_number(s.subrange(i1 + 1, i2))
        && valid_number(s.subrange(i2 + 1, core_end))) {
        None
    } else if dash < plus && !valid_ident(s.subrange(dash + 1, plus)) {
        None
    } else if plus < n && !valid_ident(s.subrange(plus + 1, n)) {
        None
    } else {
        Some(
            VersionView {
                major: digits_val(s.subrange(0, i1)),
                minor: digits_val(s.subrange(i1 + 1, i2)),
                patch: digits_val(s.subrange(i2 + 1, core_end)),
                pre: if dash < plus {
                    s.subrange(dash + 1, plus)
                } else {
                    Seq::<char>::empty()
                },
                build: if plus < n {
                    s.subrange(plus + 1, n)
                } else {
                    Seq::<char>::empty()
                },
            },
        )
    }
}

/// Parse the digit run `s[lo..hi]` as a numeric version component.
fn parse_number(s: &str, lo: usize, hi: usize) -> (r: Result<u64, VersionParseError>)
    requires
        lo <= hi <= s@.len(),
    ensures
        match r {
            Ok(v) => valid_number(s@.subrange(lo as int, hi as int)) && v as int == digits_val(
                s@.subrange(lo as int, hi as int),
            ),
            Err(_) => !valid_number(s@.subrange(lo as int, hi as int)),
        },
{
    let ghost whole = s@.subrange(lo as int, hi as int);
    if hi - lo < 1 || hi - lo > 19 {
        return Err(VersionParseError);
    }
    if hi - lo > 1 && s.get_char(lo) == '0' {
        return Err(VersionParseError);
    }
    let mut val: u64 = 0;
    let mut i = lo;
    while i < hi
        invariant
            lo <= i <= hi <= s@.len(),
            hi - lo <= 19,
            forall|j: int| lo <= j < i ==> is_digit_char(#[trigger] s@[j]),
            val as int == digits_val(s@.subrange(lo as int, i as int)),
            (val as int) < pow10((i - lo) as nat),
        decreases hi - i,
    {
        let c = s.get_char(i);
        let cu = c as u32;
        if cu < 48 || cu > 57 {
            assert(!is_digit_char(s@[i as int]));
            assert(s@.subrange(lo as int, hi as int)[i - lo] == s@[i as int]);
            return Err(VersionParseError);
        }
        let d: u64 = (cu - 48) as u64;
        proof {
            assert(digit_val(s@[i as int]) == d as int);
            let prefix = s@.subrange(lo as int, i as int);
            let next = s@.subrange(lo as int, i + 1);
            assert(next.drop_last() =~= prefix);
            assert(next.last() == s@[i as int]);
            assert(digits_val(next) == digits_val(prefix) * 10 + d);
            assert((val as int) * 10 + d < pow10((i + 1 - lo) as nat)) by {
                assert(val as int <= pow10((i - lo) as nat) - 1);
                assert(val as int * 10 <= (pow10((i - lo) as nat) - 1) * 10) by (nonlinear_arith)
                    requires
                        val as int <= pow10((i - lo) as nat) - 1,
                        val as int >= 0,
                ;
            }
            assert(pow10((i + 1 - lo) as nat) <= pow10(19)) by {
                lemma_pow10_monotone((i + 1 - lo) as nat, 19);
            }
            crate::decimal::lemma_pow10_19();
        }
        val = val * 10 + d;
        i = i + 1;
    }
    assert(whole =~= s@.subrange(lo as int, i as int));
    Ok(val)
}

/// Check that `s[lo..hi]` is a valid non-empty identifier.
fn check_ident(s: &str, lo: usize, hi: usize) -> (b: bool)
    requires
        lo <= hi <= s@.len(),
    ensures
        b == valid_ident(s@.subrange(lo as int, hi as int)),
{
    let ghost whole = s@.subrange(lo as int, hi as int);
    if hi - lo < 1 {
        return false;
    }
    let mut i = lo;
    while i < hi
        invariant
            lo <= i <= hi <= s@.len(),
            forall|j: int| lo <= j < i ==> valid_ident_char(#[trigger] s@[j]),
        decreases hi - i,
    {
        let c = s.get_char(i);
        let cu = c as u32;
        let ok = (48 <= cu && cu <= 57) || (97 <= cu && cu <= 122) || (65 <= cu && cu <= 90) || c
            == '-' || c == '.';
        if !ok {
            assert(!valid_ident_char(s@[i as int]));
            assert(s@.subrange(lo as int, hi as int)[i - lo] == s@[i as int]);
            return false;
        }
        assert(valid_ident_char(s@[i as int]));
        i = i + 1;
    }
    assert(forall|j: int| 0 <= j < whole.len() ==> valid_ident_char(#[trigger] whole[j]));
    true
}

/// Parse a version text.  Succeeds exactly on the texts of the version
/// grammar, and returns the version the text denotes.
pub fn parse_version(s: &str) -> (r: Result<Version, VersionParseError>)
    ensures
        match r {
            Ok(v) => spec_parse(s@) == Some(v@),
            Err(_) => spec_parse(s@) is None,
        },
{
    let n = s.unicode_len();
    let plus = find_from(s, '+', 0, n);
    let dash = find_from(s, '-', 0, n);
    let core_end = if dash < plus {
        dash
    } else {
        plus
    };
    let i1 = find_from(s, '.', 0, core_end);
    if i1 == core_end {
        return Err(VersionParseError);
    }
    let i2 = find_from(s, '.', i1 + 1, core_end);
    if i2 == core_end {
        return Err(VersionParseError);
    }
    let i3 = find_from(s, '.', i2 + 1, core_end);
    if i3 != core_end {
        return Err(VersionParseError);
    }
    let major = match parse_number(s, 0, i1) {
        Ok(v) => v,
        Err(e) => {
            return Err(e);
        },
    };
    let minor = match parse_number(s, i1 + 1, i2) {
        Ok(v) => v,
        Err(e) => {
            return Err(e);
        },
    };
    let patch = match parse_number(s, i2 + 1, core_end) {
        Ok(v) => v,
        Err(e) => {
            return Err(e);
        },
    };
    let pre: String = if dash < plus {
        if !check_ident(s, dash + 1, plus) {
            return Err(VersionParseError);
        }
        s.substring_char(dash + 1, plus).to_owned()
    } else {
        String::new()
    };
    let build: String = if plus < n {
        if !check_ident(s, plus + 1, n) {
            return Err(VersionParseError);
        }
        s.substring_char(plus + 1, n).to_owned()
    } else {
        String::new()
    };
    let v = Version { major, minor, patch, pre, build };
    proof {
        assert(spec_parse(s@) == Some(v@));
    }
    Ok(v)
}

/// The canonical text of a version: the numeric triple joined by dots,
/// `-pre` when the pre-release field is non-empty, `+build` when the build
/// field is non-empty.
pub open spec fn spec_render_version(v: VersionView) -> Seq<char> {
    spec_dec(v.major as nat) + seq!['.'] + spec_dec(v.minor as nat) + seq!['.'] + spec_dec(
        v.patch as nat,
    ) + (if v.pre.len() > 0 {
        seq!['-'] + v.pre
    } else {
        Seq::<char>::empty()
    }) + (if v.build.len() > 0 {
        seq!['+'] + v.build
    } else {
        Seq::<char>::empty()
    })
}

/// Render a version as its canonical plain text.
pub fn version_plain_string(version: &Version) -> (r: String)
    ensures
        r@ == spec_render_version(version@),
{
    proof {
        reveal_strlit(".");
        reveal_strlit("-");
        reveal_strlit("+");
    }
    let mut text = u64_to_string(version.major);
    text.append(".");
    let minor_s = u64_to_string(version.minor);
    text.append(minor_s.as_str());
    text.append(".");
    let patch_s = u64_to_string(version.patch);
    text.append(patch_s.as_str());
    if !version.pre.as_str().is_empty() {
        text.append("-");
        text.append(version.pre.as_str());
    }
    if !version.build.as_str().is_empty() {
        text.append("+");
        text.append(version.build.as_str());
    }
    assert(text@ =~= spec_render_version(version@));
    text
}

/// A well-formed version value: numeric fields within the grammar's range,
/// identifier fields either absent or valid.  Every parsed version is
/// well-formed, and exactly the well-formed versions render to parsable
/// text.
pub open spec fn version_wf(v: VersionView) -> bool {
    &&& 0 <= v.major < pow10(19)
    &&& 0 <= v.minor < pow10(19)
    &&& 0 <= v.patch < pow10(19)
    &&& (v.pre.len() == 0 || valid_ident(v.pre))
    &&& (v.build.len() == 0 || valid_ident(v.build))
}

proof fn lemma_digit_char_not_sep(c: char)
    requires
        is_digit_char(c),
    ensures
        c != '+' && c != '-' && c != '.',
{
}

proof fn lemma_ident_char_not_plus(c: char)
    requires
        valid_ident_char(c),
    ensures
        c != '+',
{
}

/// Whatever parses is well-formed, so the round trip below applies to
/// every parsed version.
pub proof fn lemma_parse_wf(s: Seq<char>)
    requires
        spec_parse(s) is Some,
    ensures
        version_wf(spec_parse(s)->Some_0),
{
    let n = s.len() as int;
    let plus = find_in(s, '+', 0, n);
    let dash = find_in(s, '-', 0, n);
    let core_end = if dash < plus {
        dash
    } else {
        plus
    };
    let i1 = find_in(s, '.', 0, core_end);
    let i2 = find_in(s, '.', i1 + 1, core_end);
    let maj = s.subrange(0, i1);
    let mnr = s.subrange(i1 + 1, i2);
    let pat = s.subrange(i2 + 1, core_end);
    lemma_digits_val_bound(maj);
    lemma_digits_val_bound(mnr);
    lemma_digits_val_bound(pat);
    lemma_pow10_monotone(maj.len() as nat, 19);
    lemma_pow10_monotone(mnr.len() as nat, 19);
    lemma_pow10_monotone(pat.len() as nat, 19);
}

/// Round trip: rendering a well-formed version and parsing the text back
/// gives the same version.
#[verifier::rlimit(100)]
pub proof fn lemma_render_parse_roundtrip(v: VersionView)
    requires
        version_wf(v),
    ensures
        spec_parse(spec_render_version(v)) == Some(v),
{
    let a = spec_dec(v.major as nat);
    let b = spec_dec(v.minor as nat);
    let c = spec_dec(v.patch as nat);
    lemma_spec_dec_digits(v.major as nat);
    lemma_spec_dec_digits(v.minor as nat);
    lemma_spec_dec_digits(v.patch as nat);
    crate::decimal::lemma_spec_dec_len_bound(v.major as nat, 19);
    crate::decimal::lemma_spec_dec_len_bound(v.minor as nat, 19);
    crate::decimal::lemma_spec_dec_len_bound(v.patch as nat, 19);
    crate::decimal::lemma_spec_dec_no_leading_zero(v.major as nat);
    crate::decimal::lemma_spec_dec_no_leading_zero(v.minor as nat);
    crate::decimal::lemma_spec_dec_no_leading_zero(v.patch as nat);
    crate::decimal::lemma_digits_val_spec_dec(v.major as nat);
    crate::decimal::lemma_digits_val_spec_dec(v.minor as nat);
    crate::decimal::lemma_digits_val_spec_dec(v.patch as nat);
    let la = a.len() as int;
    let lb = b.len() as int;
    let lc = c.len() as int;
    let big_l = la + 1 + lb + 1 + lc;
    let s = spec_render_version(v);
    let n = s.len() as int;
    let preseg: Seq<char> = if v.pre.len() > 0 {
        seq!['-'] + v.pre
    } else {
        Seq::<char>::empty()
    };
    let buildseg: Seq<char> = if v.build.len() > 0 {
        seq!['+'] + v.build
    } else {
        Seq::<char>::empty()
    };
    assert(n == big_l + preseg.len() + buildseg.len());
    // where each character of the text stands
    assert forall|j: int| 0 <= j < big_l && j != la && j != la + 1 + lb implies is_digit_char(
        s[j],
    ) by {
        if j < la {
            assert(s[j] == a[j]);
        } else if j < la + 1 + lb {
            assert(s[j] == b[j - la - 1]);
        } else {
            assert(s[j] == c[j - la - lb - 2]);
        }
    }
    assert(s[la] == '.');
    assert(s[la + 1 + lb] == '.');
    if v.pre.len() > 0 {
        assert(s[big_l] == '-');
        assert forall|j: int| big_l < j < big_l + 1 + v.pre.len() implies valid_ident_char(
            s[j],
        ) && s[j] == v.pre[j - big_l - 1] by {
            assert(s[j] == v.pre[j - big_l - 1]);
        }
    }
    let p0 = big_l + preseg.len();
    if v.build.len() > 0 {
        assert(s[p0] == '+');
        assert forall|j: int| p0 < j < n implies valid_ident_char(s[j]) && s[j] == v.build[j - p0
            - 1] by {
            assert(s[j] == v.build[j - p0 - 1]);
        }
    }
    // the plus sign: at the build separator, or absent
    let plus = if v.build.len() > 0 {
        p0
    } else {
        n
    };
    assert forall|j: int| 0 <= j < plus implies s[j] != '+' by {
        if j < big_l {
            if j != la && j != la + 1 + lb {
                lemma_digit_char_not_sep(s[j]);
            }
        } else if j == big_l {
            assert(s[j] == '-');
        } else {
            lemma_ident_char_not_plus(s[j]);
        }
    }
    lemma_find_in_at(s, '+', 0, n, plus);
    // the dash: at the pre separator when one exists, never in the core
    assert forall|j: int| 0 <= j < big_l implies s[j] != '-' by {
        if j != la && j != la + 1 + lb {
            lemma_digit_char_not_sep(s[j]);
        }
    }
    let dash = find_in(s, '-', 0, n);
    lemma_find_in_props(s, '-', 0, n);
    if v.pre.len() > 0 {
        lemma_find_in_at(s, '-', 0, n, big_l);
        assert(dash == big_l);
        assert(dash < plus);
    } else {
        if dash <= big_l {
            if dash < n {
                assert(s[dash] == '-');
                assert(false);
            }
        }
        assert(dash >= plus);
    }
    let core_end = if dash < plus {
        dash
    } else {
        plus
    };
    assert(core_end == big_l);
    // the two dots of the numeric core
    lemma_find_in_at(s, '.', 0, core_end, la);
    lemma_find_in_at(s, '.', la + 1, core_end, la + 1 + lb);
    assert forall|j: int| la + lb + 2 <= j < core_end implies s[j] != '.' by {
        lemma_digit_char_not_sep(s[j]);
    }
    lemma_find_in_at(s, '.', la + 1 + lb + 1, core_end, core_end);
    // the slices are the rendered fields
    assert(s.subrange(0, la) =~= a);
    assert(s.subrange(la + 1, la + 1 + lb) =~= b);
    assert(s.subrange(la + lb + 2, core_end) =~= c);
    assert(valid_number(a));
    assert(valid_number(b));
    assert(valid_number(c));
    if v.pre.len() > 0 {
        assert(s.subrange(dash + 1, plus) =~= v.pre);
    } else {
        assert(v.pre =~= Seq::<char>::empty());
    }
    if v.build.len() > 0 {
        assert(s.subrange(plus + 1, n) =~= v.build);
    } else {
        assert(v.build =~= Seq::<char>::empty());
        assert(plus == n);
    }
    assert(spec_parse(s) == Some(v));
}

/// A version text is canonical: parsing it and rendering the version
/// gives the text back, so each version has exactly one text.
#[verifier::rlimit(100)]
pub proof fn lemma_parse_render_canonical(s: Seq<char>)
    requires
        spec_parse(s) is Some,
    ensures
        spec_render_version(spec_parse(s)->Some_0) == s,
{
    let v = spec_parse(s)->Some_0;
    let n = s.len() as int;
    let plus = find_in(s, '+', 0, n);
    let dash = find_in(s, '-', 0, n);
    let core_end = if dash < plus {
        dash
    } else {
        plus
    };
    let i1 = find_in(s, '.', 0, core_end);
    let i2 = find_in(s, '.', i1 + 1, core_end);
    let maj = s.subrange(0, i1);
    let mnr = s.subrange(i1 + 1, i2);
    let pat = s.subrange(i2 + 1, core_end);
    lemma_find_in_props(s, '+', 0, n);
    lemma_find_in_props(s, '-', 0, n);
    lemma_find_in_props(s, '.', 0, core_end);
    lemma_find_in_props(s, '.', i1 + 1, core_end);
    crate::decimal::lemma_spec_dec_inverse(maj);
    crate::decimal::lemma_spec_dec_inverse(mnr);
    crate::decimal::lemma_spec_dec_inverse(pat);
    assert(spec_dec(v.major as nat) == maj);
    assert(spec_dec(v.minor as nat) == mnr);
    assert(spec_dec(v.patch as nat) == pat);
    assert(s[i1] == '.');
    assert(s[i2] == '.');
    if dash < plus {
        assert(s[dash] == '-');
        assert(v.pre == s.subrange(dash + 1, plus));
        assert(v.pre.len() == plus - dash - 1);
        assert(v.pre.len() > 0);
    }
    if plus < n {
        assert(s[plus] == '+');
        assert(v.build == s.subrange(plus + 1, n));
        assert(v.build.len() > 0);
    }
    assert(spec_render_version(v) =~= s);
}

/// The text of a version with the field named by `d` emphasized, when
/// `styled` holds; the plain text otherwise.  Separators stay plain, and a
/// field that is absent from the text shows no emphasis at all.
pub open spec fn spec_styled_version(v: VersionView, d: VersionDiff, styled: bool) -> Seq<char> {
    style_if(spec_dec(v.major as nat), styled && d is Major) + seq!['.'] + style_if(
        spec_dec(v.minor as nat),
        styled && d is Minor,
    ) + seq!['.'] + style_if(spec_dec(v.patch as nat), styled && d is Patch) + (if v.pre.len()
        > 0 {
        seq!['-'] + style_if(v.pre, styled && d is Pre)
    } else {
        Seq::<char>::empty()
    }) + (if v.build.len() > 0 {
        seq!['+'] + style_if(v.build, styled && d is Build)
    } else {
        Seq::<char>::empty()
    })
}

/// Styling off renders the plain text.
pub proof fn lemma_styled_version_plain(v: VersionView, d: VersionDiff)
    ensures
        spec_styled_version(v, d, false) == spec_render_version(v),
{
}

/// The canonical decimal rendering holds no escape character.
proof fn lemma_dec_no_esc(n: nat)
    ensures
        no_esc(spec_dec(n)),
{
    lemma_spec_dec_digits(n);
    assert forall|i: int| 0 <= i < spec_dec(n).len() implies spec_dec(n)[i] != '\u{1b}' by {
        assert(is_digit_char(spec_dec(n)[i]));
    }
}

/// Render a version with the field named by `version_diff` emphasized.
/// Whether emphasis is actually emitted depends on the process-wide
/// colorizing switch, so the result is pinned only up to that choice.
#[verifier::rlimit(60)]
pub fn version_to_string(version: &Version, version_diff: &VersionDiff) -> (r: String)
    requires
        no_esc(version@.pre),
        no_esc(version@.build),
    ensures
        exists|styled: bool| r@ == spec_styled_version(version@, *version_diff, styled),
{
    proof {
        reveal_strlit(".");
        reveal_strlit("-");
        reveal_strlit("+");
        lemma_dec_no_esc(version@.major as nat);
        lemma_dec_no_esc(version@.minor as nat);
        lemma_dec_no_esc(version@.patch as nat);
    }
    let mut major_s = u64_to_string(version.major);
    let mut minor_s = u64_to_string(version.minor);
    let mut patch_s = u64_to_string(version.patch);
    let mut pre_s = version.pre.clone();
    let mut build_s = version.build.clone();
    let ghost mut styled: bool = false;
    match version_diff {
        VersionDiff::Major => {
            major_s = paint_red(major_s.as_str());
            proof {
                styled = (major_s@ != spec_dec(version@.major as nat));
            }
        },
        VersionDiff::Minor => {
            minor_s = paint_red(minor_s.as_str());
            proof {
                styled = (minor_s@ != spec_dec(version@.minor as nat));
            }
        },
        VersionDiff::Patch => {
            patch_s = paint_red(patch_s.as_str());
            proof {
                styled = (patch_s@ != spec_dec(version@.patch as nat));
            }
        },
        VersionDiff::Pre => {
            pre_s = paint_red(pre_s.as_str());
            proof {
                styled = (pre_s@ != version@.pre);
            }
        },
        VersionDiff::Build => {
            build_s = paint_red(build_s.as_str());
            proof {
                styled = (build_s@ != version@.build);
            }
        },
        VersionDiff::Same => {},
    }
    assert(major_s@ == style_if(spec_dec(version@.major as nat), styled && *version_diff is Major));
    assert(minor_s@ == style_if(spec_dec(version@.minor as nat), styled && *version_diff is Minor));
    assert(patch_s@ == style_if(spec_dec(version@.patch as nat), styled && *version_diff is Patch));
    assert(pre_s@ == style_if(version@.pre, styled && *version_diff is Pre));
    assert(build_s@ == style_if(version@.build, styled && *version_diff is Build));
    let mut text = major_s;
    text.append(".");
    text.append(minor_s.as_str());
    text.append(".");
    text.append(patch_s.as_str());
    if !version.pre.as_str().is_empty() {
        text.append("-");
        text.append(pre_s.as_str());
    }
    if !version.build.as_str().is_empty() {
        text.append("+");
        text.append(build_s.as_str());
    }
    assert(text@ =~= spec_styled_version(version@, *version_diff, styled));
    text
}

} // verus!
