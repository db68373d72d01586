//! Semantic versions as plain values, and the bump rules on them.

use crate::text::{
    chars_last_index_of, chars_of, decimal, last_index_of, parse_u64, parsed_u64, u64_to_string,
};
use vstd::prelude::*;
use vstd::string::*;

verus! {

/// A semantic version: three numbers, a prerelease label and build metadata,
/// the last two empty where the version has none.
#[derive(Debug, Clone, PartialEq, Eq)]
pub struct SemVer {
    pub major: u64,
    pub minor: u64,
    pub patch: u64,
    pub pre: String,
    pub build: String,
}

/// What a [`SemVer`] stands for.
pub struct SemVerView {
    pub major: nat,
    pub minor: nat,
    pub patch: nat,
    pub pre: Seq<char>,
    pub build: Seq<char>,
}

impl View for SemVer {
    type V = SemVerView;

    open spec fn view(&self) -> SemVerView {
        SemVerView {
            major: self.major as nat,
            minor: self.minor as nat,
            patch: self.patch as nat,
            pre: self.pre@,
            build: self.build@,
        }
    }
}

/// The kind of version bump to perform.
#[derive(Debug, Clone, Copy, PartialEq, Eq, Structural)]
pub enum BumpType {
    Major,
    Minor,
    Patch,
    Prerelease,
}

/// Why a version could not be read or bumped.
#[derive(Debug, Clone, Copy, PartialEq, Eq, Structural)]
pub enum VersionError {
    /// The text is not a semantic version.
    Malformed,
    /// The number to increment is the largest that 64 bits hold.
    Overflow,
    /// The new prerelease label is not one that a semantic version can carry.
    InvalidPrerelease,
}

#[verifier::external_type_specification]
#[verifier::external_body]
pub struct ExSemverError(semver::Error);

/// What `semver` makes of a version text: the version, or nothing where it
/// rejects the text.
pub uninterp spec fn semver_parse(text: Seq<char>) -> Option<SemVerView>;

/// `c` may stand in a prerelease identifier: an ASCII letter, digit or hyphen.
pub open spec fn is_identifier_char(c: char) -> bool {
    ('0' as int <= c as int <= '9' as int) || ('a' as int <= c as int <= 'z' as int) || ('A' as int
        <= c as int <= 'Z' as int) || c == '-'
}

/// `s[from..to]` is one well-formed prerelease identifier: not empty, made of
/// identifier characters, and not a number written with a leading zero.
pub open spec fn valid_identifier(s: Seq<char>, from: int, to: int) -> bool {
    &&& from < to
    &&& forall|i: int| from <= i < to ==> is_identifier_char(#[trigger] s[i])
    &&& (to - from > 1 && s[from] == '0' ==> exists|i: int|
        from <= i < to && !('0' as int <= (#[trigger] s[i]) as int <= '9' as int))
}

/// `from..to` is a maximal stretch of `s` without a dot.
pub open spec fn is_segment(s: Seq<char>, from: int, to: int) -> bool {
    &&& 0 <= from <= to <= s.len()
    &&& (from == 0 || s[from - 1] == '.')
    &&& (to == s.len() || s[to] == '.')
    &&& forall|i: int| from <= i < to ==> #[trigger] s[i] != '.'
}

/// `s` is a prerelease label that a semantic version can carry: empty, or
/// well-formed identifiers separated by dots.
pub open spec fn valid_prerelease(s: Seq<char>) -> bool {
    s.len() == 0 || forall|from: int, to: int| #[trigger]
        is_segment(s, from, to) ==> valid_identifier(s, from, to)
}

/// The version as text: the three numbers separated by dots, then the
/// prerelease label after a hyphen and the build metadata after a plus sign,
/// each only where it is not empty.
pub open spec fn version_text(v: SemVerView) -> Seq<char> {
    decimal(v.major) + seq!['.'] + decimal(v.minor) + seq!['.'] + decimal(v.patch) + (if v.pre.len()
        > 0 {
        seq!['-'] + v.pre
    } else {
        Seq::empty()
    }) + (if v.build.len() > 0 {
        seq!['+'] + v.build
    } else {
        Seq::empty()
    })
}

/// The label `alpha.1`, with which a release enters prerelease.
pub open spec fn first_prerelease() -> Seq<char> {
    seq!['a', 'l', 'p', 'h', 'a', '.', '1']
}

/// The prerelease label that follows `pre`, or nothing where its number
/// cannot be incremented. An empty label becomes `alpha.1`; a label whose
/// part after the last dot reads as a number has that number incremented; any
/// other label gets `.1` appended.
pub open spec fn next_prerelease(pre: Seq<char>) -> Option<Seq<char>> {
    if pre.len() == 0 {
        Some(first_prerelease())
    } else {
        match last_index_of(pre, '.') {
            Some(dot) => match parsed_u64(pre.skip(dot + 1)) {
                Some(n) => if n == u64::MAX {
                    None
                } else {
                    Some(pre.take(dot) + seq!['.'] + decimal((n + 1) as nat))
                },
                None => Some(pre + seq!['.', '1']),
            },
            None => Some(pre + seq!['.', '1']),
        }
    }
}

/// The version that a bump of kind `bump` makes of `v`, or nothing where the
/// number to increment has no successor in 64 bits. Build metadata is kept.
pub open spec fn bumped(v: SemVerView, bump: BumpType) -> Option<SemVerView> {
    match bump {
        BumpType::Major => if v.major >= u64::MAX {
            None
        } else {
            Some(
                SemVerView {
                    major: v.major + 1,
                    minor: 0,
                    patch: 0,
                    pre: Seq::empty(),
                    build: v.build,
                },
            )
        },
        BumpType::Minor => if v.minor >= u64::MAX {
            None
        } else {
            Some(
                SemVerView {
                    major: v.major,
                    minor: v.minor + 1,
                    patch: 0,
                    pre: Seq::empty(),
                    build: v.build,
                },
            )
        },
        BumpType::Patch => if v.patch >= u64::MAX {
            None
        } else {
            Some(
                SemVerView {
                    major: v.major,
                    minor: v.minor,
                    patch: v.patch + 1,
                    pre: Seq::empty(),
                    build: v.build,
                },
            )
        },
        BumpType::Prerelease => match next_prerelease(v.pre) {
            Some(pre) => Some(
                SemVerView {
                    major: v.major,
                    minor: v.minor,
                    patch: v.patch,
                    pre: pre,
                    build: v.build,
                },
            ),
            None => None,
        },
    }
}

/// What a bump of kind `bump` on `v` returns, given whether the new
/// prerelease label was accepted: an overflow where there is no next version,
/// a rejection where a prerelease bump made a label that was not accepted, and
/// the next version otherwise.
pub open spec fn bump_outcome(v: SemVerView, bump: BumpType) -> Result<SemVerView, VersionError> {
    match bumped(v, bump) {
        None => Err(VersionError::Overflow),
        Some(next) => if bump == BumpType::Prerelease && !valid_prerelease(next.pre) {
            Err(VersionError::InvalidPrerelease)
        } else {
            Ok(next)
        },
    }
}

/// Calls `semver::Version::parse` and copies the fields of the version it
/// returns. The contract names the outcome `semver_parse` of the text: the
/// version on success, nothing on an error.
#[verifier::external_body]
fn parse_with_semver(text: &str) -> (r: Result<SemVer, semver::Error>)
    ensures
        match r {
            Ok(v) => semver_parse(text@) == Some(v@),
            Err(_) => semver_parse(text@) is None,
        },
{
    let v = semver::Version::parse(text)?;
    Ok(
        SemVer {
            major: v.major,
            minor: v.minor,
            patch: v.patch,
            pre: v.pre.as_str().to_string(),
            build: v.build.as_str().to_string(),
        },
    )
}

/// Calls `semver::Prerelease::new` and says whether it accepted the label.
/// The contract states the grammar that `semver` checks: the empty label, or
/// identifiers of ASCII letters, digits and hyphens between dots, none empty
/// and none a number with a leading zero.
#[verifier::external_body]
fn semver_accepts_prerelease(label: &str) -> (r: bool)
    ensures
        r == valid_prerelease(label@),
{
    semver::Prerelease::new(label).is_ok()
}

/// What the error says.
pub open spec fn version_error_text(e: VersionError) -> Seq<char> {
    match e {
        VersionError::Malformed => "not a semantic version"@,
        VersionError::Overflow => "version number has no successor"@,
        VersionError::InvalidPrerelease => "prerelease label is not valid"@,
    }
}

impl VersionError {
    /// What the error says.
    pub fn message(&self) -> (r: String)
        ensures
            r@ == version_error_text(*self),
    {
        match self {
            VersionError::Malformed => String::from_str("not a semantic version"),
            VersionError::Overflow => String::from_str("version number has no successor"),
            VersionError::InvalidPrerelease => String::from_str("prerelease label is not valid"),
        }
    }
}

impl SemVer {
    /// The version `major.minor.patch`, with no prerelease label and no build
    /// metadata.
    pub fn new(major: u64, minor: u64, patch: u64) -> (r: SemVer)
        ensures
            r@ == (SemVerView {
                major: major as nat,
                minor: minor as nat,
                patch: patch as nat,
                pre: Seq::empty(),
                build: Seq::empty(),
            }),
    {
        SemVer { major, minor, patch, pre: String::new(), build: String::new() }
    }

    /// Reads a semantic version from text.
    pub fn parse(text: &str) -> (r: Result<SemVer, VersionError>)
        ensures
            match r {
                Ok(v) => semver_parse(text@) == Some(v@),
                Err(e) => e == VersionError::Malformed && semver_parse(text@) is None,
            },
    {
        match parse_with_semver(text) {
            Ok(v) => Ok(v),
            Err(_) => Err(VersionError::Malformed),
        }
    }

    /// A copy of this version.
    pub fn duplicate(&self) -> (r: SemVer)
        ensures
            r@ == self@,
    {
        SemVer {
            major: self.major,
            minor: self.minor,
            patch: self.patch,
            pre: self.pre.clone(),
            build: self.build.clone(),
        }
    }

    /// Whether the two versions agree in every part, build metadata included.
    pub fn equals(&self, other: &SemVer) -> (r: bool)
        ensures
            r == (self@ == other@),
    {
        self.major == other.major && self.minor == other.minor && self.patch == other.patch
            && self.pre == other.pre && self.build == other.build
    }

    /// The version as text.
    pub fn to_string(&self) -> (r: String)
        ensures
            r@ == version_text(self@),
    {
        proof {
            reveal_strlit(".");
            reveal_strlit("-");
            reveal_strlit("+");
        }
        let mut out = u64_to_string(self.major);
        out.append(".");
        out.append(u64_to_string(self.minor).as_str());
        out.append(".");
        out.append(u64_to_string(self.patch).as_str());
        assert(out@ == decimal(self.major as nat) + seq!['.'] + decimal(self.minor as nat)
            + seq!['.'] + decimal(self.patch as nat)) by {
            assert("."@ == seq!['.']);
        }
        let ghost core = out@;
        if self.pre.as_str().unicode_len() > 0 {
            out.append("-");
            out.append(self.pre.as_str());
            assert(out@ == core + (seq!['-'] + self.pre@)) by {
                assert("-"@ == seq!['-']);
            }
        } else {
            assert(out@ == core + Seq::<char>::empty());
        }
        let ghost with_pre = out@;
        if self.build.as_str().unicode_len() > 0 {
            out.append("+");
            out.append(self.build.as_str());
            assert(out@ == with_pre + (seq!['+'] + self.build@)) by {
                assert("+"@ == seq!['+']);
            }
        } else {
            assert(out@ == with_pre + Seq::<char>::empty());
        }
        out
    }
}

/// The prerelease label that follows `pre`.
pub fn increment_prerelease(pre: &str) -> (r: Option<String>)
    ensures
        match r {
            Some(next) => next_prerelease(pre@) == Some(next@),
            None => next_prerelease(pre@) is None,
        },
{
    proof {
        reveal_strlit("alpha.1");
        reveal_strlit(".1");
        reveal_strlit(".");
    }
    let chars = chars_of(pre);
    if chars.len() == 0 {
        let first = String::from_str("alpha.1");
        assert(first@ =~= first_prerelease());
        return Some(first);
    }
    match chars_last_index_of(&chars, '.') {
        Some(dot) => {
            assert(0 <= dot < chars.len()) by {
                lemma_last_index_in_range(chars@, '.');
            }
            let len = pre.unicode_len();
            let suffix = chars_of(pre.substring_char(dot + 1, len));
            assert(suffix@ == pre@.skip(dot + 1));
            match parse_u64(&suffix) {
                Some(n) => {
                    if n == u64::MAX {
                        None
                    } else {
                        let mut out = String::from_str(pre.substring_char(0, dot));
                        assert(out@ == pre@.take(dot as int));
                        out.append(".");
                        out.append(u64_to_string(n + 1).as_str());
                        assert(out@ == pre@.take(dot as int) + seq!['.'] + decimal((n + 1) as nat))
                            by {
                            assert("."@ == seq!['.']);
                        }
                        Some(out)
                    }
                },
                None => {
                    let mut out = String::from_str(pre);
                    out.append(".1");
                    assert(".1"@ == seq!['.', '1']);
                    Some(out)
                },
            }
        },
        None => {
            let mut out = String::from_str(pre);
            out.append(".1");
            assert(".1"@ == seq!['.', '1']);
            Some(out)
        },
    }
}

/// Where a character occurs last, it occurs inside the text.
pub proof fn lemma_last_index_in_range(s: Seq<char>, c: char)
    ensures
        match last_index_of(s, c) {
            Some(i) => 0 <= i < s.len() && s[i] == c,
            None => forall|j: int| 0 <= j < s.len() ==> s[j] != c,
        },
    decreases s.len(),
{
    if s.len() > 0 && s.last() != c {
        lemma_last_index_in_range(s.drop_last(), c);
        match last_index_of(s, c) {
            Some(i) => {
                assert(s.drop_last()[i] == s[i]);
            },
            None => {
                assert forall|j: int| 0 <= j < s.len() implies s[j] != c by {
                    if j < s.len() - 1 {
                        assert(s.drop_last()[j] == s[j]);
                    }
                }
            },
        }
    }
}

/// The version that follows `current` under a bump of kind `bump`.
///
/// A major, minor or patch bump increments its number, sets the numbers after
/// it to zero and drops the prerelease label. A prerelease bump moves the
/// label on and leaves the numbers alone; the new label is handed to `semver`,
/// and the bump fails where `semver` rejects it.
pub fn calculate_new_version(current: &SemVer, bump: BumpType) -> (r: Result<SemVer, VersionError>)
    ensures
        match r {
            Ok(next) => bump_outcome(current@, bump) == Ok::<SemVerView, VersionError>(next@),
            Err(e) => bump_outcome(current@, bump) == Err::<SemVerView, VersionError>(e),
        },
{
    match bump {
        BumpType::Major => {
            if current.major == u64::MAX {
                return Err(VersionError::Overflow);
            }
            Ok(
                SemVer {
                    major: current.major + 1,
                    minor: 0,
                    patch: 0,
                    pre: String::new(),
                    build: current.build.clone(),
                },
            )
        },
        BumpType::Minor => {
            if current.minor == u64::MAX {
                return Err(VersionError::Overflow);
            }
            Ok(
                SemVer {
                    major: current.major,
                    minor: current.minor + 1,
                    patch: 0,
                    pre: String::new(),
                    build: current.build.clone(),
                },
            )
        },
        BumpType::Patch => {
            if current.patch == u64::MAX {
                return Err(VersionError::Overflow);
            }
            Ok(
                SemVer {
                    major: current.major,
                    minor: current.minor,
                    patch: current.patch + 1,
                    pre: String::new(),
                    build: current.build.clone(),
                },
            )
        },
        BumpType::Prerelease => {
            match increment_prerelease(current.pre.as_str()) {
                None => Err(VersionError::Overflow),
                Some(pre) => {
                    if !semver_accepts_prerelease(pre.as_str()) {
                        return Err(VersionError::InvalidPrerelease);
                    }
                    Ok(
                        SemVer {
                            major: current.major,
                            minor: current.minor,
                            patch: current.patch,
                            pre,
                            build: current.build.clone(),
                        },
                    )
                },
            }
        },
    }
}

/// The number that a bump of kind `bump` increments.
pub open spec fn bumped_number(v: SemVerView, bump: BumpType) -> nat {
    match bump {
        BumpType::Major => v.major,
        BumpType::Minor => v.minor,
        _ => v.patch,
    }
}

/// A major bump gives `(major + 1).0.0`, a minor bump `major.(minor + 1).0`
/// and a patch bump `major.minor.(patch + 1)`; all three drop the prerelease
/// label, whatever it was, and keep the build metadata. The bump fails only
/// where the number to increment is the largest that 64 bits hold.
pub proof fn lemma_release_bump(v: SemVerView, bump: BumpType)
    requires
        bump != BumpType::Prerelease,
    ensures
        bumped_number(v, bump) >= u64::MAX ==> bump_outcome(v, bump) == Err::<
            SemVerView,
            VersionError,
        >(VersionError::Overflow),
        bumped_number(v, bump) < u64::MAX ==> bump_outcome(v, bump) == Ok::<
            SemVerView,
            VersionError,
        >(
            SemVerView {
                major: if bump == BumpType::Major {
                    v.major + 1
                } else {
                    v.major
                },
                minor: if bump == BumpType::Major {
                    0
                } else if bump == BumpType::Minor {
                    v.minor + 1
                } else {
                    v.minor
                },
                patch: if bump == BumpType::Patch {
                    v.patch + 1
                } else {
                    0
                },
                pre: Seq::empty(),
                build: v.build,
            },
        ),
{
}

} // verus!
