//! Versions of the linter.

use crate::error::Error;
use crate::text::same_text;
use semver::Error as VersionError;
use semver::Version as SemverVersion;
use vstd::prelude::*;

verus! {

/// A semantic version, part by part.
#[derive(Debug)]
pub struct VersionParts {
    pub major: u64,
    pub minor: u64,
    pub patch: u64,
    pub pre: String,
    pub build: String,
}

/// The parts of the version that a text spells, as `semver::Version::parse` reads it; `None` where
/// it reads none.
pub uninterp spec fn version_read(text: Seq<char>) -> Option<(u64, u64, u64, Seq<char>, Seq<char>)>;

impl View for VersionParts {
    type V = (u64, u64, u64, Seq<char>, Seq<char>);

    open spec fn view(&self) -> (u64, u64, u64, Seq<char>, Seq<char>) {
        (self.major, self.minor, self.patch, self.pre@, self.build@)
    }
}

/// `semver::Version::parse`: the parts of the version that is read, or the error, are named by
/// [`version_read`]. Nothing is said of what the error holds.
#[verifier::external_body]
pub(crate) fn parse_version(text: &str) -> (r: Result<VersionParts, VersionError>)
    ensures
        r is Ok <==> version_read(text@) is Some,
        r matches Ok(parts) ==> Some(parts@) == version_read(text@),
{
    let v = SemverVersion::parse(text)?;
    Ok(
        VersionParts {
            major: v.major,
            minor: v.minor,
            patch: v.patch,
            pre: v.pre.as_str().to_string(),
            build: v.build.as_str().to_string(),
        },
    )
}

/// Whether two versions are the same, part by part.
pub fn same_version(a: &VersionParts, b: &VersionParts) -> (r: bool)
    ensures
        r == (a@ == b@),
{
    a.major == b.major && a.minor == b.minor && a.patch == b.patch && same_text(
        a.pre.as_str(),
        b.pre.as_str(),
    ) && same_text(a.build.as_str(), b.build.as_str())
}

/// `latest`, whose parts are `newest`, where it is not the version `there`.
pub fn if_different(there: &VersionParts, newest: &VersionParts, latest: String) -> (r: Option<
    String,
>)
    ensures
        r is Some <==> there@ != newest@,
        r matches Some(v) ==> v@ == latest@,
{
    if same_version(there, newest) {
        None
    } else {
        Some(latest)
    }
}

/// The version to install: `latest`, where it is not the one that is there, or none is.
///
/// A version that cannot be read is an error; with none there, nothing is read.
pub fn newer_version(latest: String, current: Option<String>) -> (r: Result<Option<String>, Error>)
    ensures
        match current {
            None => r is Ok && r->Ok_0 is Some && r->Ok_0->0@ == latest@,
            Some(now) => match (version_read(now@), version_read(latest@)) {
                (Some(a), Some(b)) => {
                    &&& r is Ok
                    &&& r->Ok_0 is Some <==> a != b
                    &&& r->Ok_0 matches Some(v) ==> v@ == latest@
                },
                _ => r is Err && r->Err_0 is Version,
            },
        },
{
    match current {
        Some(now) => {
            let there = match parse_version(now.as_str()) {
                Ok(parts) => parts,
                Err(e) => {
                    return Err(Error::Version(e));
                },
            };
            let newest = match parse_version(latest.as_str()) {
                Ok(parts) => parts,
                Err(e) => {
                    return Err(Error::Version(e));
                },
            };
            Ok(if_different(&there, &newest, latest))
        },
        None => Ok(Some(latest)),
    }
}

} // verus!
