//! Dependency locators.
//!
//! A [`Path`] names where a pipeline stage's implementation lives. Its
//! written form is `base[@version][#sub_path]`: `base` is a repository slug
//! (`hotg-ai/rune`), a bare registry name, or a URL; `version` optionally
//! pins a version or git tag; `sub_path` optionally points at a directory
//! inside the repository.

use vstd::prelude::*;
use vstd::string::StrSliceExecFns;
use vstd::string::StringExecFns;

verus! {

/// A specification for finding a dependency.
///
/// The full syntax is `base@version#sub_path` where
///
/// - `base` is a URL or the name of a repository on GitHub (e.g.
///   `hotg-ai/rune` or `https://github.com/hotg-ai/rune`)
/// - `version` is an optional field specifying the version (e.g. as a git
///   tag)
/// - `sub_path` is an optional field which is useful when pointing to
///   repositories with multiple relevant items because it lets you specify
///   which directory the specified item is in.
#[derive(Debug, PartialEq, Eq, Hash, PartialOrd, Ord)]
pub struct Path {
    pub base: String,
    pub sub_path: Option<String>,
    pub version: Option<String>,
}

impl Clone for Path {
    fn clone(&self) -> (r: Self)
        ensures
            r@ == self@,
    {
        Path {
            base: self.base.clone(),
            sub_path: match &self.sub_path {
                Some(s) => Some(s.clone()),
                None => None,
            },
            version: match &self.version {
                Some(v) => Some(v.clone()),
                None => None,
            },
        }
    }
}

/// The mathematical shape of a [`Path`]: each component as a sequence of
/// characters.
pub struct PathModel {
    pub base: Seq<char>,
    pub sub_path: Option<Seq<char>>,
    pub version: Option<Seq<char>>,
}

impl View for Path {
    type V = PathModel;

    open spec fn view(&self) -> PathModel {
        PathModel {
            base: self.base@,
            sub_path: match self.sub_path {
                Some(s) => Some(s@),
                None => None,
            },
            version: match self.version {
                Some(v) => Some(v@),
                None => None,
            },
        }
    }
}

/// The error returned when a string is not a well-formed path.
#[derive(Debug, Copy, Clone, PartialEq, Eq, Default)]
pub struct PathParseError;

/// Characters allowed in a path's `base` component.
pub open spec fn is_base_char(c: char) -> bool {
    ||| 'A' <= c && c <= 'Z'
    ||| 'a' <= c && c <= 'z'
    ||| '0' <= c && c <= '9'
    ||| c == ':'
    ||| c == '/'
    ||| c == '.'
    ||| c == '_'
    ||| c == '-'
}

/// Characters allowed in a path's `version` component.
pub open spec fn is_version_char(c: char) -> bool {
    ||| 'A' <= c && c <= 'Z'
    ||| 'a' <= c && c <= 'z'
    ||| '0' <= c && c <= '9'
    ||| c == '.'
    ||| c == '/'
    ||| c == '-'
}

/// Characters allowed in a path's `sub_path` component.
pub open spec fn is_sub_path_char(c: char) -> bool {
    ||| 'A' <= c && c <= 'Z'
    ||| 'a' <= c && c <= 'z'
    ||| '0' <= c && c <= '9'
    ||| c == '.'
    ||| c == '_'
    ||| c == '/'
    ||| c == '-'
}

pub open spec fn valid_base(s: Seq<char>) -> bool {
    s.len() > 0 && forall|i: int| 0 <= i < s.len() ==> is_base_char(#[trigger] s[i])
}

pub open spec fn valid_version(s: Seq<char>) -> bool {
    s.len() > 0 && forall|i: int| 0 <= i < s.len() ==> is_version_char(#[trigger] s[i])
}

pub open spec fn valid_sub_path(s: Seq<char>) -> bool {
    s.len() > 0 && forall|i: int| 0 <= i < s.len() ==> is_sub_path_char(#[trigger] s[i])
}

/// A path that the grammar can express: every component drawn from its
/// character class.
pub open spec fn path_well_formed(p: PathModel) -> bool {
    &&& valid_base(p.base)
    &&& match p.version {
        Some(v) => valid_version(v),
        None => true,
    }
    &&& match p.sub_path {
        Some(s) => valid_sub_path(s),
        None => true,
    }
}

/// The canonical written form: `base`, then `@version` if present, then
/// `#sub_path` if present.
pub open spec fn spec_render(p: PathModel) -> Seq<char> {
    p.base + (match p.version {
        Some(v) => seq!['@'] + v,
        None => Seq::empty(),
    }) + (match p.sub_path {
        Some(s) => seq!['#'] + s,
        None => Seq::empty(),
    })
}

/// The position of the first occurrence of `c` in `t`, if any.
pub open spec fn find_char(t: Seq<char>, c: char) -> Option<int>
    decreases t.len(),
{
    if t.len() == 0 {
        None
    } else if t[0] == c {
        Some(0)
    } else {
        match find_char(t.drop_first(), c) {
            Some(i) => Some(i + 1),
            None => None,
        }
    }
}

/// `find_char` returns exactly the least index holding `c`.
pub proof fn lemma_find_char(t: Seq<char>, c: char)
    ensures
        match find_char(t, c) {
            Some(i) => 0 <= i < t.len() && t[i] == c && forall|j: int|
                0 <= j < i ==> t[j] != c,
            None => forall|j: int| 0 <= j < t.len() ==> t[j] != c,
        },
    decreases t.len(),
{
    if t.len() > 0 && t[0] != c {
        lemma_find_char(t.drop_first(), c);
        match find_char(t.drop_first(), c) {
            Some(i) => {
                assert(t[i + 1] == c);
                assert forall|j: int| 0 <= j < i + 1 implies t[j] != c by {
                    if j > 0 {
                        assert(t.drop_first()[j - 1] != c);
                    }
                }
            },
            None => {
                assert forall|j: int| 0 <= j < t.len() implies t[j] != c by {
                    if j > 0 {
                        assert(t.drop_first()[j - 1] != c);
                    }
                }
            },
        }
    }
}

/// Splitting `t` at the first `@` and `#`, the grammar
/// `base (@version)? (#sub_path)?` admits exactly one reading; this gives
/// that reading, components not yet held to their character classes.
pub open spec fn spec_split(t: Seq<char>) -> PathModel {
    match (find_char(t, '@'), find_char(t, '#')) {
        (Some(a), Some(h)) => {
            if a < h {
                PathModel {
                    base: t.subrange(0, a),
                    version: Some(t.subrange(a + 1, h)),
                    sub_path: Some(t.subrange(h + 1, t.len() as int)),
                }
            } else {
                PathModel {
                    base: t.subrange(0, h),
                    version: None,
                    sub_path: Some(t.subrange(h + 1, t.len() as int)),
                }
            }
        },
        (Some(a), None) => PathModel {
            base: t.subrange(0, a),
            version: Some(t.subrange(a + 1, t.len() as int)),
            sub_path: None,
        },
        (None, Some(h)) => PathModel {
            base: t.subrange(0, h),
            version: None,
            sub_path: Some(t.subrange(h + 1, t.len() as int)),
        },
        (None, None) => PathModel { base: t, version: None, sub_path: None },
    }
}

/// The reading of `t` under the path grammar, or `None` when some component
/// steps outside its character class.
pub open spec fn spec_parse(t: Seq<char>) -> Option<PathModel> {
    if path_well_formed(spec_split(t)) {
        Some(spec_split(t))
    } else {
        None
    }
}

impl Path {
    /// Build a path from its components.
    pub fn new(base: String, sub_path: Option<String>, version: Option<String>) -> (r: Path)
        ensures
            r.base == base,
            r.sub_path == sub_path,
            r.version == version,
    {
        Path { base, sub_path, version }
    }

    /// The canonical written form of this path.
    pub fn render(&self) -> (r: String)
        ensures
            r@ == spec_render(self@),
    {
        let mut out = String::new();
        out.append(self.base.as_str());
        match &self.version {
            Some(v) => {
                out.append("@");
                out.append(v.as_str());
            },
            None => {},
        }
        match &self.sub_path {
            Some(s) => {
                out.append("#");
                out.append(s.as_str());
            },
            None => {},
        }
        proof {
            reveal_strlit("@");
            reveal_strlit("#");
            assert(out@ =~= spec_render(self@));
        }
        out
    }

    /// Parse the written form. Succeeds exactly on strings the grammar
    /// `base (@version)? (#sub_path)?` generates.
    pub fn parse(s: &str) -> (r: Result<Path, PathParseError>)
        ensures
            match r {
                Ok(p) => spec_parse(s@) == Some(p@) && path_well_formed(p@),
                Err(_) => spec_parse(s@) is None,
            },
    {
        let n = s.unicode_len();
        let at = find_in_str(s, '@');
        let hash = find_in_str(s, '#');
        proof {
            lemma_find_char(s@, '@');
            lemma_find_char(s@, '#');
        }

        let (base_end, version_range, sub_start): (usize, Option<(usize, usize)>, Option<usize>) =
            match (at, hash) {
                (Some(a), Some(h)) => {
                    if a < h {
                        (a, Some((a + 1, h)), Some(h + 1))
                    } else {
                        (h, None, Some(h + 1))
                    }
                },
                (Some(a), None) => (a, Some((a + 1, n)), None),
                (None, Some(h)) => (h, None, Some(h + 1)),
                (None, None) => (n, None, None),
            };

        if !range_is_valid_base(s, 0, base_end) {
            return Err(PathParseError);
        }
        let version = match version_range {
            Some((lo, hi)) => {
                if !range_is_valid_version(s, lo, hi) {
                    return Err(PathParseError);
                }
                Some(String::from_str(s.substring_char(lo, hi)))
            },
            None => None,
        };
        let sub_path = match sub_start {
            Some(lo) => {
                if !range_is_valid_sub_path(s, lo, n) {
                    return Err(PathParseError);
                }
                Some(String::from_str(s.substring_char(lo, n)))
            },
            None => None,
        };
        let base = String::from_str(s.substring_char(0, base_end));
        let p = Path { base, sub_path, version };
        proof {
            let sp = spec_split(s@);
            assert(sp.base =~= p@.base);
            match version_range {
                Some((lo, hi)) => {
                    assert(sp.version matches Some(v) && v =~= s@.subrange(
                        lo as int,
                        hi as int,
                    ));
                },
                None => {
                    assert(sp.version is None);
                },
            }
            match sub_start {
                Some(lo) => {
                    assert(sp.sub_path matches Some(v) && v =~= s@.subrange(lo as int, n as int));
                },
                None => {
                    assert(sp.sub_path is None);
                },
            }
            assert(sp == p@);
        }
        Ok(p)
    }
}

/// The first position of `c` in `s`, matching [`find_char`] on the view.
pub(crate) fn find_in_str(s: &str, c: char) -> (r: Option<usize>)
    ensures
        match r {
            Some(i) => find_char(s@, c) == Some(i as int),
            None => find_char(s@, c) is None,
        },
{
    let n = s.unicode_len();
    let mut i: usize = 0;
    while i < n
        invariant
            0 <= i <= n,
            n == s@.len(),
            forall|j: int| 0 <= j < i ==> s@[j] != c,
        decreases n - i,
    {
        if s.get_char(i) == c {
            proof {
                lemma_find_char(s@, c);
                match find_char(s@, c) {
                    Some(k) => {
                        if k < i {
                            assert(s@[k] != c);
                        }
                        if k > i {
                            assert(s@[i as int] != c);
                        }
                    },
                    None => {
                        assert(s@[i as int] != c);
                    },
                }
            }
            return Some(i);
        }
        i += 1;
    }
    proof {
        lemma_find_char(s@, c);
        if let Some(k) = find_char(s@, c) {
            assert(s@[k] != c);
        }
    }
    None
}

/// Whether every character of `s@` in `[lo, hi)` is a base character.
fn range_is_valid_base(s: &str, lo: usize, hi: usize) -> (r: bool)
    requires
        lo <= hi <= s@.len(),
    ensures
        r == valid_base(s@.subrange(lo as int, hi as int)),
{
    if lo == hi {
        return false;
    }
    let mut i: usize = lo;
    while i < hi
        invariant
            lo <= i <= hi <= s@.len(),
            forall|j: int| lo <= j < i ==> is_base_char(#[trigger] s@[j]),
        decreases hi - i,
    {
        let c = s.get_char(i);
        if !(('A' <= c && c <= 'Z') || ('a' <= c && c <= 'z') || ('0' <= c && c <= '9')
            || c == ':' || c == '/' || c == '.' || c == '_' || c == '-') {
            assert(!valid_base(s@.subrange(lo as int, hi as int))) by {
                assert(s@.subrange(lo as int, hi as int)[i - lo] == s@[i as int]);
            }
            return false;
        }
        i += 1;
    }
    assert(valid_base(s@.subrange(lo as int, hi as int))) by {
        assert forall|j: int| 0 <= j < hi - lo implies is_base_char(
            #[trigger] s@.subrange(lo as int, hi as int)[j],
        ) by {
            assert(s@.subrange(lo as int, hi as int)[j] == s@[lo + j]);
        }
    }
    true
}

/// Whether every character of `s@` in `[lo, hi)` is a version character.
fn range_is_valid_version(s: &str, lo: usize, hi: usize) -> (r: bool)
    requires
        lo <= hi <= s@.len(),
    ensures
        r == valid_version(s@.subrange(lo as int, hi as int)),
{
    if lo == hi {
        return false;
    }
    let mut i: usize = lo;
    while i < hi
        invariant
            lo <= i <= hi <= s@.len(),
            forall|j: int| lo <= j < i ==> is_version_char(#[trigger] s@[j]),
        decreases hi - i,
    {
        let c = s.get_char(i);
        if !(('A' <= c && c <= 'Z') || ('a' <= c && c <= 'z') || ('0' <= c && c <= '9')
            || c == '.' || c == '/' || c == '-') {
            assert(!valid_version(s@.subrange(lo as int, hi as int))) by {
                assert(s@.subrange(lo as int, hi as int)[i - lo] == s@[i as int]);
            }
            return false;
        }
        i += 1;
    }
    assert(valid_version(s@.subrange(lo as int, hi as int))) by {
        assert forall|j: int| 0 <= j < hi - lo implies is_version_char(
            #[trigger] s@.subrange(lo as int, hi as int)[j],
        ) by {
            assert(s@.subrange(lo as int, hi as int)[j] == s@[lo + j]);
        }
    }
    true
}

/// Whether every character of `s@` in `[lo, hi)` is a sub-path character.
fn range_is_valid_sub_path(s: &str, lo: usize, hi: usize) -> (r: bool)
    requires
        lo <= hi <= s@.len(),
    ensures
        r == valid_sub_path(s@.subrange(lo as int, hi as int)),
{
    if lo == hi {
        return false;
    }
    let mut i: usize = lo;
    while i < hi
        invariant
            lo <= i <= hi <= s@.len(),
            forall|j: int| lo <= j < i ==> is_sub_path_char(#[trigger] s@[j]),
        decreases hi - i,
    {
        let c = s.get_char(i);
        if !(('A' <= c && c <= 'Z') || ('a' <= c && c <= 'z') || ('0' <= c && c <= '9')
            || c == '.' || c == '_' || c == '/' || c == '-') {
            assert(!valid_sub_path(s@.subrange(lo as int, hi as int))) by {
                assert(s@.subrange(lo as int, hi as int)[i - lo] == s@[i as int]);
            }
            return false;
        }
        i += 1;
    }
    assert(valid_sub_path(s@.subrange(lo as int, hi as int))) by {
        assert forall|j: int| 0 <= j < hi - lo implies is_sub_path_char(
            #[trigger] s@.subrange(lo as int, hi as int)[j],
        ) by {
            assert(s@.subrange(lo as int, hi as int)[j] == s@[lo + j]);
        }
    }
    true
}

/// Parsing inverts rendering: every path the grammar can express is
/// recovered exactly from its canonical written form.
pub proof fn lemma_path_round_trip(p: PathModel)
    requires
        path_well_formed(p),
    ensures
        spec_parse(spec_render(p)) == Some(p),
{
    let t = spec_render(p);
    lemma_find_char(t, '@');
    lemma_find_char(t, '#');
    let b = p.base.len() as int;
    match (p.version, p.sub_path) {
        (Some(v), Some(s)) => {
            assert(t[b] == '@');
            assert(t[b + 1 + v.len()] == '#');
            assert(find_char(t, '@') == Some(b)) by {
                if let Some(a) = find_char(t, '@') {
                    if a < b {
                        assert(is_base_char(t[a]) && t[a] == '@') by {
                            assert(t[a] == p.base[a]);
                        }
                    }
                } else {
                    assert(t[b] == '@');
                }
            }
            let h = b + 1 + v.len() as int;
            assert(find_char(t, '#') == Some(h)) by {
                if let Some(k) = find_char(t, '#') {
                    if k < h {
                        if k < b {
                            assert(t[k] == p.base[k] && is_base_char(t[k]));
                        } else if k == b {
                            assert(t[k] == '@');
                        } else {
                            assert(t[k] == v[k - b - 1] && is_version_char(t[k]));
                        }
                    }
                } else {
                    assert(t[h] == '#');
                }
            }
            assert(t.subrange(0, b) =~= p.base);
            assert(t.subrange(b + 1, h) =~= v);
            assert(t.subrange(h + 1, t.len() as int) =~= s);
        },
        (Some(v), None) => {
            assert(t[b] == '@');
            assert(find_char(t, '@') == Some(b)) by {
                if let Some(a) = find_char(t, '@') {
                    if a < b {
                        assert(t[a] == p.base[a] && is_base_char(t[a]));
                    }
                } else {
                    assert(t[b] == '@');
                }
            }
            assert(find_char(t, '#') is None) by {
                if let Some(k) = find_char(t, '#') {
                    if k < b {
                        assert(t[k] == p.base[k] && is_base_char(t[k]));
                    } else if k == b {
                        assert(t[k] == '@');
                    } else {
                        assert(t[k] == v[k - b - 1] && is_version_char(t[k]));
                    }
                }
            }
            assert(t.subrange(0, b) =~= p.base);
            assert(t.subrange(b + 1, t.len() as int) =~= v);
        },
        (None, Some(s)) => {
            assert(t[b] == '#');
            assert(find_char(t, '#') == Some(b)) by {
                if let Some(k) = find_char(t, '#') {
                    if k < b {
                        assert(t[k] == p.base[k] && is_base_char(t[k]));
                    }
                } else {
                    assert(t[b] == '#');
                }
            }
            assert(find_char(t, '@') is None) by {
                if let Some(a) = find_char(t, '@') {
                    if a < b {
                        assert(t[a] == p.base[a] && is_base_char(t[a]));
                    } else if a == b {
                        assert(t[a] == '#');
                    } else {
                        assert(t[a] == s[a - b - 1] && is_sub_path_char(t[a]));
                    }
                }
            }
            assert(t.subrange(0, b) =~= p.base);
            assert(t.subrange(b + 1, t.len() as int) =~= s);
        },
        (None, None) => {
            assert(find_char(t, '@') is None) by {
                if let Some(a) = find_char(t, '@') {
                    assert(t[a] == p.base[a] && is_base_char(t[a]));
                }
            }
            assert(find_char(t, '#') is None) by {
                if let Some(k) = find_char(t, '#') {
                    assert(t[k] == p.base[k] && is_base_char(t[k]));
                }
            }
            assert(t =~= p.base);
        },
    }
}

} // verus!
