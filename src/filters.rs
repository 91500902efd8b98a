//! Per-pile filters: which paths of a pile are left out.

use vstd::prelude::*;
use crate::config::PileConfig;

verus! {

/// Whether `glob::Pattern::new` accepts a pattern.
pub uninterp spec fn glob_compiles(pattern: Seq<char>) -> bool;

/// Whether the compiled pattern matches a path, under the default match options.
pub uninterp spec fn glob_matches(pattern: Seq<char>, path: Seq<char>) -> bool;

/// Relies on glob::Pattern::new: whether a pattern compiles depends on the
/// pattern alone.
#[verifier::external_body]
fn glob_is_valid(pattern: &str) -> (r: bool)
    ensures
        r == glob_compiles(pattern@),
{
    glob::Pattern::new(pattern).is_ok()
}

/// Relies on glob::Pattern::new and glob::Pattern::matches: for a pattern that
/// compiles, whether it matches depends on the pattern and the path alone.
#[verifier::external_body]
fn glob_match(pattern: &str, path: &str) -> (r: bool)
    requires
        glob_compiles(pattern@),
    ensures
        r == glob_matches(pattern@, path@),
{
    match glob::Pattern::new(pattern) {
        Ok(p) => p.matches(path),
        Err(_) => false,
    }
}

/// A glob pattern that did not compile.
#[derive(Debug)]
pub struct FilterError {
    pub pattern: String,
}

/// The views of a list of strings.
pub open spec fn strings_view(v: Seq<String>) -> Seq<Seq<char>> {
    v.map_values(|s: String| s@)
}

/// The view of each string of a list.
pub proof fn lemma_strings_view(v: Seq<String>)
    ensures
        strings_view(v).len() == v.len(),
        forall|j: int| 0 <= j < v.len() ==> #[trigger] strings_view(v)[j] == v[j]@,
{
}

/// Whether a path relative to the pile root is kept by the ignore patterns.
pub open spec fn kept_by(ignore: Seq<Seq<char>>, rel_path: Seq<char>) -> bool {
    forall|i: int| 0 <= i < ignore.len() ==> !#[trigger] glob_matches(ignore[i], rel_path)
}

/// A copy of a list of strings.
pub fn copy_strings(v: &Vec<String>) -> (r: Vec<String>)
    ensures
        strings_view(r@) == strings_view(v@),
{
    let mut r: Vec<String> = Vec::new();
    let mut i: usize = 0;
    while i < v.len()
        invariant
            i <= v@.len(),
            strings_view(r@) == strings_view(v@.take(i as int)),
        decreases v@.len() - i,
    {
        let ghost before = r@;
        let s = v[i].clone();
        assert(s@ == v@[i as int]@);
        r.push(s);
        proof {
            lemma_strings_view(before);
            lemma_strings_view(r@);
            lemma_strings_view(v@.take(i as int));
            lemma_strings_view(v@.take(i as int + 1));
            assert forall|j: int| 0 <= j < r@.len() implies #[trigger] strings_view(r@)[j] == strings_view(v@.take(i as int + 1))[j] by {
                if j < i {
                    assert(strings_view(before)[j] == strings_view(v@.take(i as int))[j]);
                    assert(r@[j] == before[j]);
                }
            }
            assert(strings_view(r@) =~= strings_view(v@.take(i as int + 1)));
        }
        i = i + 1;
    }
    proof {
        assert(v@.take(v@.len() as int) == v@);
    }
    r
}

/// The ignore patterns of a pile, all of which compile.
#[derive(Debug)]
pub struct Filters {
    ignore: Vec<String>,
}

impl View for Filters {
    type V = Seq<Seq<char>>;

    closed spec fn view(&self) -> Seq<Seq<char>> {
        strings_view(self.ignore@)
    }
}

impl Filters {
    #[verifier::type_invariant]
    spec fn inv(&self) -> bool {
        forall|i: int| 0 <= i < self.ignore@.len() ==> glob_compiles(#[trigger] self.ignore@[i]@)
    }

    /// The filters of a pile, or the first pattern that does not compile.
    pub fn new(config: &PileConfig) -> (r: Result<Filters, FilterError>)
        ensures
            r is Ok <==> forall|i: int| 0 <= i < config.ignore@.len() ==> glob_compiles(#[trigger] config.ignore@[i]@),
            r matches Ok(f) ==> f@ == strings_view(config.ignore@),
            r matches Err(e) ==> exists|i: int| 0 <= i < config.ignore@.len() && e.pattern@ == config.ignore@[i]@
                && !glob_compiles(config.ignore@[i]@),
    {
        let mut i: usize = 0;
        while i < config.ignore.len()
            invariant
                i <= config.ignore@.len(),
                forall|j: int| 0 <= j < i ==> glob_compiles(#[trigger] config.ignore@[j]@),
            decreases config.ignore@.len() - i,
        {
            if !glob_is_valid(config.ignore[i].as_str()) {
                return Err(FilterError { pattern: config.ignore[i].clone() });
            }
            i = i + 1;
        }
        let ignore = copy_strings(&config.ignore);
        proof {
            lemma_strings_view(ignore@);
            lemma_strings_view(config.ignore@);
            assert forall|j: int| 0 <= j < ignore@.len() implies glob_compiles(#[trigger] ignore@[j]@) by {
                assert(strings_view(ignore@)[j] == strings_view(config.ignore@)[j]);
            }
        }
        Ok(Filters { ignore })
    }

    /// Whether a path, relative to the pile root, is kept: no ignore pattern
    /// matches it.
    pub fn keep(&self, rel_path: &String) -> (r: bool)
        ensures
            r == kept_by(self@, rel_path@),
    {
        proof {
            use_type_invariant(self);
            lemma_strings_view(self.ignore@);
        }
        let mut i: usize = 0;
        while i < self.ignore.len()
            invariant
                i <= self.ignore@.len(),
                forall|j: int| 0 <= j < self.ignore@.len() ==> glob_compiles(#[trigger] self.ignore@[j]@),
                strings_view(self.ignore@).len() == self.ignore@.len(),
                forall|j: int| 0 <= j < self.ignore@.len() ==> #[trigger] strings_view(self.ignore@)[j] == self.ignore@[j]@,
                forall|j: int| 0 <= j < i ==> !glob_matches(#[trigger] strings_view(self.ignore@)[j], rel_path@),
            decreases self.ignore@.len() - i,
        {
            if glob_match(self.ignore[i].as_str(), rel_path.as_str()) {
                assert(glob_matches(strings_view(self.ignore@)[i as int], rel_path@));
                return false;
            }
            i = i + 1;
        }
        true
    }

    /// A copy of the filters.
    pub fn duplicate(&self) -> (r: Filters)
        ensures
            r@ == self@,
    {
        proof {
            use_type_invariant(self);
        }
        let ignore = copy_strings(&self.ignore);
        proof {
            lemma_strings_view(ignore@);
            lemma_strings_view(self.ignore@);
            assert forall|j: int| 0 <= j < ignore@.len() implies glob_compiles(#[trigger] ignore@[j]@) by {
                assert(strings_view(ignore@)[j] == strings_view(self.ignore@)[j]);
            }
        }
        Filters { ignore }
    }
}

} // verus!
