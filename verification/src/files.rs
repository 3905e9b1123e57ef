//! The file collections an asset build works over: a list of decoded
//! paths, searched with Unix shell style patterns (through the `glob`
//! crate) and narrowed to subdirectories.

use vstd::prelude::*;
use vstd::string::*;

verus! {

/// What `glob::Pattern::new` decides for a pattern text: whether it
/// compiles.  A function of the pattern alone.
pub uninterp spec fn glob_pattern_ok(pattern: Seq<char>) -> bool;

/// What `glob::Pattern::matches` decides for a pattern and a path.  A
/// function of the two texts alone.
pub uninterp spec fn glob_matches(pattern: Seq<char>, path: Seq<char>) -> bool;

/// Relies on `glob::Pattern::new`: whether a pattern compiles depends on
/// the pattern text alone.
#[verifier::external_body]
fn glob_pattern_valid(pattern: &str) -> (r: bool)
    ensures
        r == glob_pattern_ok(pattern@),
{
    glob::Pattern::new(pattern).is_ok()
}

/// Relies on `glob::Pattern::new` and `glob::Pattern::matches`: whether a
/// path matches depends on the pattern and path texts alone, and `None`
/// comes exactly when the pattern does not compile.
#[verifier::external_body]
fn glob_match(pattern: &str, path: &str) -> (r: Option<bool>)
    ensures
        r is Some <==> glob_pattern_ok(pattern@),
        r matches Some(b) ==> b == glob_matches(pattern@, path@),
{
    glob::Pattern::new(pattern).ok().map(|p| p.matches(path))
}

/// Whether `p` is a leading piece of `s`.
pub open spec fn is_path_prefix(p: Seq<char>, s: Seq<char>) -> bool {
    p.len() <= s.len() && s.subrange(0, p.len() as int) == p
}

/// Whether the text of `s` starts with the text of `p`.
fn starts_with_str(s: &str, p: &str) -> (r: bool)
    ensures
        r == is_path_prefix(p@, s@),
{
    let plen = p.unicode_len();
    let slen = s.unicode_len();
    if plen > slen {
        return false;
    }
    for i in 0..plen
        invariant
            plen == p@.len(),
            slen == s@.len(),
            plen <= slen,
            forall|k: int| 0 <= k < i ==> s@[k] == p@[k],
    {
        if s.get_char(i) != p.get_char(i) {
            return false;
        }
    }
    proof {
        assert(s@.subrange(0, plen as int) =~= p@);
    }
    true
}

/// The texts of a list of paths, in order.
pub open spec fn texts_of(files: Seq<String>) -> Seq<Seq<char>> {
    Seq::new(files.len(), |i: int| files[i]@)
}

/// The members of `texts` (in order, up to position `i`) that start with
/// `p`.
pub open spec fn prefix_filtered(texts: Seq<Seq<char>>, p: Seq<char>, i: int) -> Seq<Seq<char>>
    decreases i,
{
    if i <= 0 {
        Seq::empty()
    } else {
        let rest = prefix_filtered(texts, p, i - 1);
        if is_path_prefix(p, texts[i - 1]) {
            rest.push(texts[i - 1])
        } else {
            rest
        }
    }
}

/// The members of `texts`, in order, that start with `p`.
pub open spec fn prefix_filter(texts: Seq<Seq<char>>, p: Seq<char>) -> Seq<Seq<char>> {
    prefix_filtered(texts, p, texts.len() as int)
}

/// Why [`FileCollection::find_file_res`] failed.
#[derive(Clone, Copy, PartialEq, Eq, Structural, Debug)]
pub enum FindFileError {
    /// The pattern is not a valid glob pattern.
    InvalidPattern,
    /// No file of the collection matches the pattern.
    NotFound,
}

/// An ordered collection of decoded file paths.
pub struct FileCollection(pub Vec<String>);

impl FileCollection {
    /// Whether the exact path is one of the collection's files.
    pub fn has_input_file(&self, url: &String) -> (r: bool)
        ensures
            r == exists|i: int| 0 <= i < self.0@.len() && (#[trigger] self.0@[i])@ == url@,
    {
        let n = self.0.len();
        for i in 0..n
            invariant
                n == self.0@.len(),
                forall|k: int| 0 <= k < i ==> (#[trigger] self.0@[k])@ != url@,
        {
            if self.0[i] == *url {
                return true;
            }
        }
        false
    }

    /// The first file whose path matches the glob pattern, or `None` when
    /// none does.  The pattern must be a valid glob pattern; use
    /// [`FileCollection::find_file_res`] to have an invalid one reported
    /// instead.
    pub fn find_file(&self, glob_pattern: &str) -> (r: Option<&String>)
        requires
            glob_pattern_ok(glob_pattern@),
        ensures
            match r {
                Some(f) => exists|i: int|
                    0 <= i < self.0@.len() && glob_matches(
                        glob_pattern@,
                        (#[trigger] self.0@[i])@,
                    ) && f@ == self.0@[i]@ && (forall|j: int|
                        0 <= j < i ==> !glob_matches(glob_pattern@, (#[trigger] self.0@[j])@)),
                None => forall|i: int|
                    0 <= i < self.0@.len() ==> !glob_matches(
                        glob_pattern@,
                        (#[trigger] self.0@[i])@,
                    ),
            },
    {
        let n = self.0.len();
        for i in 0..n
            invariant
                n == self.0@.len(),
                glob_pattern_ok(glob_pattern@),
                forall|k: int|
                    0 <= k < i ==> !glob_matches(glob_pattern@, (#[trigger] self.0@[k])@),
        {
            match glob_match(glob_pattern, self.0[i].as_str()) {
                Some(true) => {
                    return Some(&self.0[i]);
                },
                Some(false) => {},
                None => {},
            }
        }
        None
    }

    /// The first file whose path matches the glob pattern, or the reason
    /// there is none: the pattern does not compile, or no file matches.
    pub fn find_file_res(&self, glob_pattern: &str) -> (r: Result<&String, FindFileError>)
        ensures
            r matches Ok(f) ==> glob_pattern_ok(glob_pattern@) && exists|i: int|
                0 <= i < self.0@.len() && glob_matches(glob_pattern@, (#[trigger] self.0@[i])@)
                    && f@ == self.0@[i]@ && (forall|j: int|
                    0 <= j < i ==> !glob_matches(glob_pattern@, (#[trigger] self.0@[j])@)),
            r == Err::<&String, FindFileError>(FindFileError::InvalidPattern) <==> !glob_pattern_ok(
                glob_pattern@,
            ),
            r == Err::<&String, FindFileError>(FindFileError::NotFound) <==> glob_pattern_ok(
                glob_pattern@,
            ) && (forall|i: int|
                0 <= i < self.0@.len() ==> !glob_matches(glob_pattern@, (#[trigger] self.0@[i])@)),
    {
        if !glob_pattern_valid(glob_pattern) {
            return Err(FindFileError::InvalidPattern);
        }
        match self.find_file(glob_pattern) {
            Some(f) => Ok(f),
            None => Err(FindFileError::NotFound),
        }
    }

    /// The sub-collection of files under the given path prefix, in the
    /// same order.
    pub fn sub_directory(&self, path: &str) -> (r: FileCollection)
        ensures
            texts_of(r.0@) == prefix_filter(texts_of(self.0@), path@),
    {
        let n = self.0.len();
        let mut out: Vec<String> = Vec::new();
        for i in 0..n
            invariant
                n == self.0@.len(),
                texts_of(out@) == prefix_filtered(texts_of(self.0@), path@, i as int),
        {
            if starts_with_str(self.0[i].as_str(), path) {
                out.push(self.0[i].clone());
            }
            proof {
                assert(texts_of(out@) =~= prefix_filtered(texts_of(self.0@), path@, i + 1));
            }
        }
        FileCollection(out)
    }
}

} // verus!
