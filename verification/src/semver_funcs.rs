//! Semantic versions: parsing, the three numeric parts, and precedence.

use vstd::prelude::*;
use vstd::string::*;
use crate::engine::{add_text_function, add_value_method};
use crate::model::{CelValue, CelView, FunctionError};
use crate::text::{chars_of, concat3, slice_chars, text_of};

verus! {

/// A semantic version, as plain values.
#[derive(Debug, PartialEq, Eq)]
pub struct KubeSemver {
    pub major: u64,
    pub minor: u64,
    pub patch: u64,
    /// The pre-release identifiers, without the leading `-`; empty for a release.
    pub pre: String,
    /// The build metadata, without the leading `+`; empty where there is none.
    pub build: String,
}


/// The mathematical value of a [`KubeSemver`].
pub struct SemverView {
    pub major: u64,
    pub minor: u64,
    pub patch: u64,
    pub pre: Seq<char>,
    pub build: Seq<char>,
}

impl View for KubeSemver {
    type V = SemverView;

    open spec fn view(&self) -> SemverView {
        SemverView {
            major: self.major,
            minor: self.minor,
            patch: self.patch,
            pre: self.pre@,
            build: self.build@,
        }
    }
}

impl Clone for KubeSemver {
    fn clone(&self) -> (r: Self)
        ensures
            r@ == self@,
    {
        KubeSemver {
            major: self.major,
            minor: self.minor,
            patch: self.patch,
            pre: self.pre.clone(),
            build: self.build.clone(),
        }
    }
}

impl cel::objects::Opaque for KubeSemver {
    /// The name by which the engine knows values of this kind.
    fn runtime_type_name(&self) -> (r: &str)
        ensures
            r@ == "kubernetes.Semver"@,
    {
        "kubernetes.Semver"
    }
}


/// The version that `Version::parse` reads from `text`: its three numbers, its pre-release
/// identifiers and its build metadata. Nothing where `text` is no semantic version.
pub uninterp spec fn version_of(text: Seq<char>) -> Option<(u64, u64, u64, Seq<char>, Seq<char>)>;

/// How `Ord` of `semver::Prerelease` places the pre-release identifiers `a` before (-1),
/// with (0) or after (1) the identifiers `b`.
pub uninterp spec fn prerelease_order(a: Seq<char>, b: Seq<char>) -> int;

/// How `Ord` of `semver::BuildMetadata` places the build metadata `a` before (-1), with
/// (0) or after (1) the metadata `b`.
pub uninterp spec fn build_order(a: Seq<char>, b: Seq<char>) -> int;

/// `Version::parse`, its outcome as plain values: the fields `major`, `minor` and `patch`,
/// and `as_str` of `pre` and of `build`. On failure, `Display` of the error.
///
/// The outcome is a function of the text alone.
#[verifier::external_body]
fn parse_version(text: &str) -> (r: Result<KubeSemver, String>)
    ensures
        match r {
            Ok(v) => version_of(text@) == Some((v.major, v.minor, v.patch, v.pre@, v.build@)),
            Err(_) => version_of(text@) is None,
        },
{
    semver::Version::parse(text).map_err(|e| e.to_string()).map(
        |v|
            KubeSemver {
                major: v.major,
                minor: v.minor,
                patch: v.patch,
                pre: v.pre.as_str().to_string(),
                build: v.build.as_str().to_string(),
            },
    )
}

/// `Ord::cmp` of `semver::Prerelease`, on the identifiers that `Prerelease::new` reads
/// from the two texts; the empty identifiers where a text holds none that are valid.
#[verifier::external_body]
fn prerelease_precedence(a: &str, b: &str) -> (r: i8)
    ensures
        r == prerelease_order(a@, b@),
        -1 <= r <= 1,
{
    let left = semver::Prerelease::new(a).unwrap_or_default();
    let right = semver::Prerelease::new(b).unwrap_or_default();
    match left.cmp(&right) {
        std::cmp::Ordering::Less => -1,
        std::cmp::Ordering::Equal => 0,
        std::cmp::Ordering::Greater => 1,
    }
}

/// `Ord::cmp` of `semver::BuildMetadata`, on the metadata that `BuildMetadata::new` reads
/// from the two texts; the empty metadata where a text holds none that is valid.
#[verifier::external_body]
fn build_precedence(a: &str, b: &str) -> (r: i8)
    ensures
        r == build_order(a@, b@),
        -1 <= r <= 1,
{
    let left = semver::BuildMetadata::new(a).unwrap_or_default();
    let right = semver::BuildMetadata::new(b).unwrap_or_default();
    match left.cmp(&right) {
        std::cmp::Ordering::Less => -1,
        std::cmp::Ordering::Equal => 0,
        std::cmp::Ordering::Greater => 1,
    }
}

/// How many points `s` holds.
pub open spec fn count_points(s: Seq<char>) -> nat
    decreases s.len(),
{
    if s.len() == 0 {
        0
    } else {
        count_points(s.drop_last()) + if s.last() == '.' {
            1nat
        } else {
            0nat
        }
    }
}

/// Where the first hyphen of `s` stands, or the length of `s` if it has none.
pub open spec fn hyphen_index(s: Seq<char>) -> int
    decreases s.len(),
{
    if s.len() == 0 {
        0
    } else if s[0] == '-' {
        0
    } else {
        1 + hyphen_index(s.drop_first())
    }
}

/// The version text `s` made complete: without one leading `v` or `V`, and with `.0`
/// added to the numbers before the first hyphen until there are three of them. `1`
/// becomes `1.0.0`, `v1.2` becomes `1.2.0`, and `1.2-rc.1` becomes `1.2.0-rc.1`.
pub open spec fn normalized(s: Seq<char>) -> Seq<char> {
    let bare = if s.len() > 0 && (s[0] == 'v' || s[0] == 'V') {
        s.skip(1)
    } else {
        s
    };
    let hyphen = hyphen_index(bare);
    let numbers = bare.take(hyphen);
    let rest = bare.skip(hyphen);
    let points = count_points(numbers);
    if points == 0 {
        numbers + ".0.0"@ + rest
    } else if points == 1 {
        numbers + ".0"@ + rest
    } else {
        numbers + rest
    }
}

proof fn lemma_hyphen_index(s: Seq<char>, k: int)
    requires
        0 <= k <= s.len(),
        forall|i: int| 0 <= i < k ==> #[trigger] s[i] != '-',
        k < s.len() ==> s[k] == '-',
    ensures
        hyphen_index(s) == k,
    decreases s.len(),
{
    if s.len() > 0 && k > 0 {
        assert(s[0] != '-');
        let rest = s.drop_first();
        assert forall|i: int| 0 <= i < k - 1 implies #[trigger] rest[i] != '-' by {
            assert(rest[i] == s[i + 1]);
        }
        lemma_hyphen_index(rest, k - 1);
    }
}

/// Makes a version text complete before it is parsed.
pub fn normalize(s: &str) -> (r: String)
    ensures
        r@ == normalized(s@),
{
    let chars = chars_of(s);
    let start: usize = if chars.len() > 0 && (chars[0] == 'v' || chars[0] == 'V') {
        1
    } else {
        0
    };
    let bare = slice_chars(&chars, start, chars.len());
    assert(start == 0 ==> bare@ =~= s@);
    assert(start == 1 ==> bare@ =~= s@.skip(1));
    let mut hyphen: usize = 0;
    let mut points: usize = 0;
    assert(bare@.take(0) =~= Seq::<char>::empty());
    while hyphen < bare.len() && bare[hyphen] != '-'
        invariant
            hyphen <= bare.len(),
            points <= hyphen,
            forall|i: int| 0 <= i < hyphen ==> #[trigger] bare@[i] != '-',
            points == count_points(bare@.take(hyphen as int)),
        decreases bare.len() - hyphen,
    {
        assert(bare@.take(hyphen + 1).drop_last() =~= bare@.take(hyphen as int));
        assert(bare@.take(hyphen + 1).last() == bare[hyphen as int]);
        if bare[hyphen] == '.' {
            points += 1;
        }
        hyphen += 1;
    }
    proof {
        lemma_hyphen_index(bare@, hyphen as int);
    }
    let numbers = slice_chars(&bare, 0, hyphen);
    let rest = slice_chars(&bare, hyphen, bare.len());
    assert(numbers@ =~= bare@.take(hyphen as int));
    assert(rest@ =~= bare@.skip(hyphen as int));
    let mut out = text_of(&numbers);
    if points == 0 {
        out.append(".0.0");
    } else if points == 1 {
        out.append(".0");
    }
    let tail = text_of(&rest);
    out.append(tail.as_str());
    out
}

/// How the version `a` stands to the version `b`: by the major, then the minor, then the
/// patch number, then by the pre-release identifiers, then by the build metadata.
pub open spec fn version_order(a: SemverView, b: SemverView) -> int {
    if a.major != b.major {
        if a.major < b.major {
            -1
        } else {
            1
        }
    } else if a.minor != b.minor {
        if a.minor < b.minor {
            -1
        } else {
            1
        }
    } else if a.patch != b.patch {
        if a.patch < b.patch {
            -1
        } else {
            1
        }
    } else if prerelease_order(a.pre, b.pre) != 0 {
        prerelease_order(a.pre, b.pre)
    } else {
        build_order(a.build, b.build)
    }
}

impl KubeSemver {
    /// How this version stands to `other`: -1 where it comes before, 0 where they are
    /// the same, 1 where it comes after.
    pub fn precedence(&self, other: &KubeSemver) -> (r: i64)
        ensures
            r == version_order(self@, other@),
    {
        if self.major != other.major {
            if self.major < other.major {
                -1
            } else {
                1
            }
        } else if self.minor != other.minor {
            if self.minor < other.minor {
                -1
            } else {
                1
            }
        } else if self.patch != other.patch {
            if self.patch < other.patch {
                -1
            } else {
                1
            }
        } else {
            let pre = prerelease_precedence(self.pre.as_str(), other.pre.as_str());
            if pre != 0 {
                if pre < 0 {
                    -1
                } else {
                    1
                }
            } else {
                let build = build_precedence(self.build.as_str(), other.build.as_str());
                if build < 0 {
                    -1
                } else if build == 0 {
                    0
                } else {
                    1
                }
            }
        }
    }
}

/// `semver(<string>)`: the version that the string writes, once it is made complete.
pub fn parse_semver(s: &str) -> (r: Result<CelValue, FunctionError>)
    ensures
        match r {
            Ok(v) => match (v@, version_of(normalized(s@))) {
                (CelView::Semver(version), Some(parts)) => parts == (
                    version.major,
                    version.minor,
                    version.patch,
                    version.pre,
                    version.build,
                ),
                _ => false,
            },
            Err(e) => version_of(normalized(s@)) is None && e.function@ == "semver"@,
        },
{
    let text = normalize(s);
    match parse_version(text.as_str()) {
        Ok(version) => Ok(CelValue::Semver(version)),
        Err(e) => {
            let mut message = concat3("invalid semver '", s, "': ");
            message.append(e.as_str());
            Err(FunctionError::new("semver", message.as_str()))
        },
    }
}

/// `isSemver(<string>)`: whether the string, once made complete, writes a version.
pub fn is_semver(s: &str) -> (r: Result<CelValue, FunctionError>)
    ensures
        r matches Ok(v) && v@ == CelView::Bool(version_of(normalized(s@)) is Some),
{
    let text = normalize(s);
    Ok(CelValue::Bool(parse_version(text.as_str()).is_ok()))
}

/// The version that `val` holds.
pub fn extract_semver(val: &CelValue) -> (r: Result<&KubeSemver, FunctionError>)
    ensures
        match r {
            Ok(v) => val@ == CelView::Semver(v@),
            Err(e) => !(val@ is Semver) && e.says("semver"@, "expected Semver type"@),
        },
{
    match val {
        CelValue::Semver(v) => Ok(v),
        _ => Err(FunctionError::new("semver", "expected Semver type")),
    }
}

/// The number `n` as the engine's integer: `n` itself where 63 bits hold it.
pub open spec fn as_int(n: u64) -> i64 {
    if n <= i64::MAX as u64 {
        n as i64
    } else {
        (n - 0x1_0000_0000_0000_0000) as i64
    }
}

fn as_int_of(n: u64) -> (r: i64)
    ensures
        r == as_int(n),
{
    if n <= i64::MAX as u64 {
        n as i64
    } else {
        (n as i128 - 0x1_0000_0000_0000_0000i128) as i64
    }
}

/// `<Semver>.major()`.
pub fn semver_major(this: &CelValue) -> (r: Result<CelValue, FunctionError>)
    ensures
        match r {
            Ok(v) => match this@ {
                CelView::Semver(version) => v@ == CelView::Int(as_int(version.major)),
                _ => false,
            },
            Err(e) => !(this@ is Semver) && e.says("semver"@, "expected Semver type"@),
        },
{
    let version = extract_semver(this)?;
    Ok(CelValue::Int(as_int_of(version.major)))
}

/// `<Semver>.minor()`.
pub fn semver_minor(this: &CelValue) -> (r: Result<CelValue, FunctionError>)
    ensures
        match r {
            Ok(v) => match this@ {
                CelView::Semver(version) => v@ == CelView::Int(as_int(version.minor)),
                _ => false,
            },
            Err(e) => !(this@ is Semver) && e.says("semver"@, "expected Semver type"@),
        },
{
    let version = extract_semver(this)?;
    Ok(CelValue::Int(as_int_of(version.minor)))
}

/// `<Semver>.patch()`.
pub fn semver_patch(this: &CelValue) -> (r: Result<CelValue, FunctionError>)
    ensures
        match r {
            Ok(v) => match this@ {
                CelView::Semver(version) => v@ == CelView::Int(as_int(version.patch)),
                _ => false,
            },
            Err(e) => !(this@ is Semver) && e.says("semver"@, "expected Semver type"@),
        },
{
    let version = extract_semver(this)?;
    Ok(CelValue::Int(as_int_of(version.patch)))
}

/// What comparing two values as versions comes to: how the first stands to the second
/// where both are versions, and the error of the first that is none.
pub open spec fn versions_compared(this: CelView, other: CelView, r: Result<int, FunctionError>) -> bool {
    match (this, other) {
        (CelView::Semver(a), CelView::Semver(b)) => r matches Ok(order) && order == version_order(
            a,
            b,
        ),
        _ => r matches Err(e) && e.says("semver"@, "expected Semver type"@),
    }
}

fn compare_versions(this: &CelValue, other: &CelValue) -> (r: Result<i64, FunctionError>)
    ensures
        versions_compared(
            this@,
            other@,
            match r {
                Ok(order) => Ok(order as int),
                Err(e) => Err(e),
            },
        ),
{
    let a = extract_semver(this)?;
    let b = extract_semver(other)?;
    Ok(a.precedence(b))
}

/// `<Semver>.isGreaterThan(<Semver>)`.
pub fn semver_is_greater_than(this: &CelValue, other: &CelValue) -> (r: Result<
    CelValue,
    FunctionError,
>)
    ensures
        match r {
            Ok(v) => v@ matches CelView::Bool(b) && this@ is Semver && other@ is Semver && (b
                <==> version_order(this@->Semver_0, other@->Semver_0) > 0),
            Err(e) => versions_compared(this@, other@, Err(e)),
        },
{
    match compare_versions(this, other) {
        Ok(order) => Ok(CelValue::Bool(order > 0)),
        Err(e) => Err(e),
    }
}

/// `<Semver>.isLessThan(<Semver>)`.
pub fn semver_is_less_than(this: &CelValue, other: &CelValue) -> (r: Result<
    CelValue,
    FunctionError,
>)
    ensures
        match r {
            Ok(v) => v@ matches CelView::Bool(b) && this@ is Semver && other@ is Semver && (b
                <==> version_order(this@->Semver_0, other@->Semver_0) < 0),
            Err(e) => versions_compared(this@, other@, Err(e)),
        },
{
    match compare_versions(this, other) {
        Ok(order) => Ok(CelValue::Bool(order < 0)),
        Err(e) => Err(e),
    }
}

/// `<Semver>.compareTo(<Semver>)`: -1, 0 or 1.
pub fn semver_compare_to(this: &CelValue, other: &CelValue) -> (r: Result<CelValue, FunctionError>)
    ensures
        match r {
            Ok(v) => v@ matches CelView::Int(order) && versions_compared(
                this@,
                other@,
                Ok(order as int),
            ),
            Err(e) => versions_compared(this@, other@, Err(e)),
        },
{
    match compare_versions(this, other) {
        Ok(order) => Ok(CelValue::Int(order)),
        Err(e) => Err(e),
    }
}

/// The names of the functions of versions that no other kind of value shares.
pub open spec fn names() -> Set<Seq<char>> {
    set![
        "semver"@,
        "isSemver"@,
        "major"@,
        "minor"@,
        "patch"@,
    ]
}

/// Adds the functions of versions that no other kind of value shares: `semver`,
/// `isSemver`, `major`, `minor` and `patch`.
pub fn register(ctx: &mut cel::Context<'_>)
    ensures
        crate::engine::functions_added(*old(ctx), *final(ctx), names()),
{
    add_text_function(ctx, "semver", parse_semver);
    add_text_function(ctx, "isSemver", is_semver);
    add_value_method(ctx, "major", semver_major);
    add_value_method(ctx, "minor", semver_minor);
    add_value_method(ctx, "patch", semver_patch);
    assert(crate::engine::is_root(*old(ctx)) ==> crate::engine::function_names(*ctx)
        =~= crate::engine::function_names(*old(ctx)).union(names()));
}

} // verus!
