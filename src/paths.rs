//! Paths of hoarded files, on the system and in the hoard.

use vstd::prelude::*;

verus! {

/// A path on the user's system (absolute, with environment variables expanded).
#[derive(Clone, Debug)]
pub struct SystemPath(pub String);

/// A path under the hoards root.
#[derive(Clone, Debug)]
pub struct HoardPath(pub String);

/// Joins a relative path onto a prefix; an empty relative path names the
/// prefix itself.
pub open spec fn join_path(prefix: Seq<char>, rel: Seq<char>) -> Seq<char> {
    if rel.len() == 0 {
        prefix
    } else {
        prefix + seq!['/'] + rel
    }
}

/// Joins a relative path onto a prefix.
pub fn join(prefix: &String, rel: &String) -> (r: String)
    ensures
        r@ == join_path(prefix@, rel@),
{
    if rel.as_str().unicode_len() == 0 {
        prefix.clone()
    } else {
        let mut r = prefix.clone();
        r.append("/");
        r.append(rel.as_str());
        proof {
            reveal_strlit("/");
        }
        r
    }
}

/// One file of a hoard: the pile it belongs to, the pile's roots on both
/// sides, and its path relative to those roots.
#[derive(Clone, Debug)]
pub struct HoardFile {
    pub pile_name: Option<String>,
    pub hoard_prefix: HoardPath,
    pub system_prefix: SystemPath,
    pub relative_path: String,
}

/// What a [`HoardFile`] is: pile name, hoard prefix, system prefix and
/// relative path.
pub type HoardFileView = (Option<Seq<char>>, Seq<char>, Seq<char>, Seq<char>);

impl View for HoardFile {
    type V = HoardFileView;

    open spec fn view(&self) -> HoardFileView {
        (
            match self.pile_name {
                Some(n) => Some(n@),
                None => None,
            },
            self.hoard_prefix.0@,
            self.system_prefix.0@,
            self.relative_path@,
        )
    }
}

impl HoardFile {
    /// A file of the pile with the given name and roots.
    pub fn new(
        pile_name: Option<String>,
        hoard_prefix: HoardPath,
        system_prefix: SystemPath,
        relative_path: String,
    ) -> (r: HoardFile)
        ensures
            r.pile_name == pile_name,
            r.hoard_prefix == hoard_prefix,
            r.system_prefix == system_prefix,
            r.relative_path == relative_path,
    {
        HoardFile { pile_name, hoard_prefix, system_prefix, relative_path }
    }

    /// The path of the file in the hoard.
    pub fn hoard_path(&self) -> (r: String)
        ensures
            r@ == join_path(self.hoard_prefix.0@, self.relative_path@),
    {
        join(&self.hoard_prefix.0, &self.relative_path)
    }

    /// The path of the file on the system.
    pub fn system_path(&self) -> (r: String)
        ensures
            r@ == join_path(self.system_prefix.0@, self.relative_path@),
    {
        join(&self.system_prefix.0, &self.relative_path)
    }

    /// A copy of the file that equals it.
    pub fn duplicate(&self) -> (r: HoardFile)
        ensures
            r@ == self@,
    {
        let pile_name = match &self.pile_name {
            Some(n) => Some(n.clone()),
            None => None,
        };
        HoardFile {
            pile_name,
            hoard_prefix: HoardPath(self.hoard_prefix.0.clone()),
            system_prefix: SystemPath(self.system_prefix.0.clone()),
            relative_path: self.relative_path.clone(),
        }
    }
}

/// Relies on std::path::Path::exists: whether anything is found at the path
/// when asked; nothing is promised of the answer.
#[verifier::external_body]
fn path_exists(path: &String) -> (r: bool) {
    std::path::Path::new(path.as_str()).exists()
}

/// A condition that holds when something (a file, a directory, a link...)
/// exists at the path. With no path it never holds.
#[derive(Clone, Debug)]
pub struct PathExists(pub Option<SystemPath>);

impl PathExists {
    /// Whether the condition holds now.
    pub fn holds(&self) -> (r: bool)
        ensures
            self.0 is None ==> !r,
    {
        match &self.0 {
            Some(path) => path_exists(&path.0),
            None => false,
        }
    }
}

impl TryFrom<PathExists> for bool {
    type Error = std::convert::Infallible;

    /// Whether the condition holds now; never an error.
    fn try_from(p: PathExists) -> (r: Result<bool, std::convert::Infallible>)
        ensures
            r is Ok,
            p.0 is None ==> r == Ok::<bool, std::convert::Infallible>(false),
    {
        Ok(p.holds())
    }
}

/// What a conversion is known to give: `false` without a path. With a path
/// the answer depends on the disk, so no spec of the conversion is claimed.
impl vstd::std_specs::convert::TryFromSpecImpl<PathExists> for bool {
    open spec fn obeys_try_from_spec() -> bool {
        false
    }

    open spec fn try_from_spec(p: PathExists) -> Result<bool, std::convert::Infallible> {
        match p.0 {
            None => Ok(false),
            Some(_) => arbitrary(),
        }
    }
}

} // verus!
