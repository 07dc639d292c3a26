//! Repository-relative paths as they arrive in URLs and configuration.
//!
//! A [`WorkspacePath`] is a normalised list of path components (never `.`,
//! `..` or empty) together with a flag recording whether the request named
//! a directory (a trailing `/`). The repository root has no components and
//! is written `.`.
use vstd::prelude::*;

use crate::text::{
    chars_equal, chars_of, extend_chars, first_index_of, has_suffix, is_ws, join_with,
    lemma_first_index_of, skip_char_backward, string_of, string_of_range, trim_bounds,
    trim_end_bound, trim_end_char, trim_end_ws, trim_ws, split_on,
};

verus! {

/// Why a path was refused.
#[derive(Debug, Clone, Copy, PartialEq, Eq, Structural)]
pub enum PathError {
    UrlPathMustStartWithSlash,
    PathRequired,
    AbsolutePathNotAllowed,
    PathEscapesRepositoryRoot,
    ReservedPath,
}

impl PathError {
    /// The message the server reports for this error.
    pub fn message(&self) -> (r: String)
        ensures
            r@ == self.spec_message(),
    {
        match self {
            PathError::UrlPathMustStartWithSlash => String::from_str("URL path must start with /"),
            PathError::PathRequired => String::from_str("path is required"),
            PathError::AbsolutePathNotAllowed => String::from_str("absolute paths are not allowed"),
            PathError::PathEscapesRepositoryRoot => String::from_str("path escapes repository root"),
            PathError::ReservedPath => String::from_str("reserved path"),
        }
    }

    pub open spec fn spec_message(&self) -> Seq<char> {
        match self {
            PathError::UrlPathMustStartWithSlash => "URL path must start with /"@,
            PathError::PathRequired => "path is required"@,
            PathError::AbsolutePathNotAllowed => "absolute paths are not allowed"@,
            PathError::PathEscapesRepositoryRoot => "path escapes repository root"@,
            PathError::ReservedPath => "reserved path"@,
        }
    }
}

pub open spec fn dot() -> Seq<char> {
    seq!['.']
}

pub open spec fn dot_dot() -> Seq<char> {
    seq!['.', '.']
}

pub open spec fn slash() -> Seq<char> {
    seq!['/']
}

/// The name of the directory that holds repository metadata.
pub open spec fn repo_dir_name() -> Seq<char> {
    seq!['.', 'r', 'e', 'p', 'o']
}

/// A component that may appear in a normalised path.
pub open spec fn valid_component(c: Seq<char>) -> bool {
    &&& c.len() > 0
    &&& !c.contains('/')
    &&& c != dot()
    &&& c != dot_dot()
}

pub open spec fn valid_components(cs: Seq<Seq<char>>) -> bool {
    forall|i: int| 0 <= i < cs.len() ==> valid_component(#[trigger] cs[i])
}

/// How a list of components is written: `.` for the root, otherwise the
/// components joined with `/`.
pub open spec fn components_text(cs: Seq<Seq<char>>) -> Seq<char> {
    if cs.len() == 0 {
        dot()
    } else {
        join_with(cs, slash())
    }
}

/// The components contributed by one piece of a `/`-separated path:
/// empty pieces and `.` vanish, `..` escapes the root.
pub open spec fn piece_components(p: Seq<char>) -> Result<Seq<Seq<char>>, PathError> {
    if p == dot_dot() {
        Err(PathError::PathEscapesRepositoryRoot)
    } else if p.len() == 0 || p == dot() {
        Ok(Seq::empty())
    } else {
        Ok(seq![p])
    }
}

pub open spec fn prepend_components(
    head: Result<Seq<Seq<char>>, PathError>,
    tail: Result<Seq<Seq<char>>, PathError>,
) -> Result<Seq<Seq<char>>, PathError> {
    match head {
        Err(e) => Err(e),
        Ok(h) => match tail {
            Err(e) => Err(e),
            Ok(t) => Ok(h + t),
        },
    }
}

/// The components of a relative path, read piece by piece from the left.
pub open spec fn relative_components(s: Seq<char>) -> Result<Seq<Seq<char>>, PathError>
    decreases s.len(),
{
    match first_index_of(s, '/') {
        None => piece_components(s),
        Some(i) => {
            if 0 <= i < s.len() {
                prepend_components(
                    piece_components(s.subrange(0, i)),
                    relative_components(s.skip(i + 1)),
                )
            } else {
                piece_components(s)
            }
        },
    }
}

/// What a configuration path (`from_path_str`) denotes: its components
/// and whether it names a directory.
pub open spec fn spec_from_path_str(p: Seq<char>) -> Result<(Seq<Seq<char>>, bool), PathError> {
    let t = trim_ws(p);
    let is_dir = has_suffix(t, slash());
    let n = trim_end_char(t, '/');
    if n.len() == 0 {
        Ok((Seq::empty(), false))
    } else if n[0] == '/' {
        Err(PathError::AbsolutePathNotAllowed)
    } else {
        match relative_components(n) {
            Err(e) => Err(e),
            Ok(cs) => Ok((cs, is_dir)),
        }
    }
}

/// What a URL path (`from_url`) denotes.
pub open spec fn spec_from_url(p: Seq<char>) -> Result<(Seq<Seq<char>>, bool), PathError> {
    if p == slash() {
        Ok((Seq::empty(), true))
    } else if !(p.len() > 0 && p[0] == '/') {
        Err(PathError::UrlPathMustStartWithSlash)
    } else {
        let is_dir = has_suffix(trim_end_ws(p), slash());
        let n = trim_end_char(trim_ws(p.drop_first()), '/');
        if n.len() == 0 {
            Err(PathError::PathRequired)
        } else {
            match spec_from_path_str(n) {
                Err(e) => Err(e),
                Ok((cs, _)) => {
                    if cs.len() > 0 && cs[0] == repo_dir_name() {
                        Err(PathError::ReservedPath)
                    } else {
                        Ok((cs, is_dir))
                    }
                },
            }
        }
    }
}

/// Whether a path with components `a` lies under the one with components
/// `b` (component-wise, as `Path::starts_with`; the root `.` only contains
/// itself).
pub open spec fn components_start_with(a: Seq<Seq<char>>, b: Seq<Seq<char>>) -> bool {
    if b.len() == 0 {
        a.len() == 0
    } else {
        b.len() <= a.len() && a.subrange(0, b.len() as int) == b
    }
}

/// `base` joined with the relative text `rel` (`Utf8Path::join`).
pub open spec fn join_path(base: Seq<char>, rel: Seq<char>) -> Seq<char> {
    if rel.len() > 0 && rel[0] == '/' {
        rel
    } else if base.len() == 0 {
        rel
    } else if base.last() == '/' {
        base + rel
    } else {
        base + slash() + rel
    }
}

/// A normalised repository-relative path.
#[derive(Debug)]
pub struct WorkspacePath {
    components: Vec<String>,
    text: String,
    is_directory: bool,
}

impl View for WorkspacePath {
    type V = (Seq<Seq<char>>, bool);

    closed spec fn view(&self) -> (Seq<Seq<char>>, bool) {
        (self.components@.map_values(|c: String| c@), self.is_directory)
    }
}

impl WorkspacePath {
    #[verifier::type_invariant]
    closed spec fn inv(self) -> bool {
        &&& valid_components(self.components@.map_values(|c: String| c@))
        &&& self.text@ == components_text(self.components@.map_values(|c: String| c@))
    }

    /// The components of the path.
    pub open spec fn comps(&self) -> Seq<Seq<char>> {
        self@.0
    }

    /// Whether the path names a directory.
    pub open spec fn dir(&self) -> bool {
        self@.1
    }

    /// The text of the path.
    pub open spec fn text(&self) -> Seq<char> {
        components_text(self@.0)
    }

    /// Parses a URL path such as `/docs/a.md`.
    pub fn from_url(path: &str) -> (r: Result<WorkspacePath, PathError>)
        ensures
            match r {
                Ok(p) => spec_from_url(path@) == Ok::<(Seq<Seq<char>>, bool), PathError>(p@),
                Err(e) => spec_from_url(path@) == Err::<(Seq<Seq<char>>, bool), PathError>(e),
            },
    {
        let v = chars_of(path);
        let n = v.len();
        if n == 1 && v[0] == '/' {
            assert(path@ =~= slash());
            return Ok(WorkspacePath::root(true));
        }
        if !(n > 0 && v[0] == '/') {
            assert(path@ != slash());
            return Err(PathError::UrlPathMustStartWithSlash);
        }
        assert(path@ != slash()) by {
            if path@ == slash() {
                assert(path@.len() == 1);
            }
        }
        let e = trim_end_bound(&v, 0, n);
        assert(v@.subrange(0, n as int) =~= v@);
        let is_directory = e > 0 && v[e - 1] == '/';
        proof {
            lemma_ends_with_slash(v@, 0, e as int);
        }
        let (a, b) = trim_bounds(&v, 1, n);
        assert(v@.subrange(1, n as int) =~= v@.drop_first());
        let b2 = skip_char_backward(&v, a, b, '/');
        if a == b2 {
            return Err(PathError::PathRequired);
        }
        let inner = WorkspacePath::parse_relative(&v, a, b2);
        match inner {
            Err(err) => Err(err),
            Ok(p) => {
                if p.is_reserved() {
                    Err(PathError::ReservedPath)
                } else {
                    Ok(p.with_directory(is_directory))
                }
            },
        }
    }

    /// Parses a configuration path such as `docs/` or `notes/a.md`.
    pub fn from_path_str(path: &str) -> (r: Result<WorkspacePath, PathError>)
        ensures
            match r {
                Ok(p) => spec_from_path_str(path@) == Ok::<(Seq<Seq<char>>, bool), PathError>(p@),
                Err(e) => spec_from_path_str(path@) == Err::<(Seq<Seq<char>>, bool), PathError>(e),
            },
    {
        let v = chars_of(path);
        let r = WorkspacePath::parse_relative(&v, 0, v.len());
        assert(v@.subrange(0, v@.len() as int) =~= v@);
        r
    }

    /// `from_path_str` applied to `v[from..to]`.
    fn parse_relative(v: &Vec<char>, from: usize, to: usize) -> (r: Result<WorkspacePath, PathError>)
        requires
            from <= to <= v@.len(),
        ensures
            match r {
                Ok(p) => spec_from_path_str(v@.subrange(from as int, to as int)) == Ok::<
                    (Seq<Seq<char>>, bool),
                    PathError,
                >(p@),
                Err(e) => spec_from_path_str(v@.subrange(from as int, to as int)) == Err::<
                    (Seq<Seq<char>>, bool),
                    PathError,
                >(e),
            },
    {
        let ghost s = v@.subrange(from as int, to as int);
        let (a, b) = trim_bounds(v, from, to);
        let ghost t = v@.subrange(a as int, b as int);
        let is_directory = b > a && v[b - 1] == '/';
        proof {
            lemma_ends_with_slash(v@, a as int, b as int);
        }
        let b2 = skip_char_backward(v, a, b, '/');
        let ghost n = v@.subrange(a as int, b2 as int);
        if a == b2 {
            assert(n.len() == 0);
            return Ok(WorkspacePath::root(false));
        }
        assert(n[0] == v@[a as int]);
        if v[a] == '/' {
            return Err(PathError::AbsolutePathNotAllowed);
        }
        match WorkspacePath::collect_components(v, a, b2) {
            Err(e) => Err(e),
            Ok(comps) => {
                let p = WorkspacePath::from_components(comps, is_directory);
                Ok(p)
            },
        }
    }

    /// The components of `v[from..to]`, or the error the text yields.
    fn collect_components(v: &Vec<char>, from: usize, to: usize) -> (r: Result<Vec<String>, PathError>)
        requires
            from <= to <= v@.len(),
        ensures
            match r {
                Ok(cs) => relative_components(v@.subrange(from as int, to as int)) == Ok::<
                    Seq<Seq<char>>,
                    PathError,
                >(cs@.map_values(|c: String| c@)) && valid_components(cs@.map_values(|c: String| c@)),
                Err(e) => relative_components(v@.subrange(from as int, to as int)) == Err::<
                    Seq<Seq<char>>,
                    PathError,
                >(e),
            },
    {
        let mut acc: Vec<String> = Vec::new();
        let mut start = from;
        loop
            invariant
                from <= start <= to <= v@.len(),
                valid_components(acc@.map_values(|c: String| c@)),
                relative_components(v@.subrange(from as int, to as int)) == prepend_components(
                    Ok(acc@.map_values(|c: String| c@)),
                    relative_components(v@.subrange(start as int, to as int)),
                ),
            decreases to - start,
        {
            let j = find_char(v, start, to, '/');
            let ghost rest = v@.subrange(start as int, to as int);
            let ghost piece = v@.subrange(start as int, j as int);
            assert(rest.subrange(0, j - start) =~= piece);
            let res = piece_of(v, start, j);
            let ghost old_acc = acc@.map_values(|c: String| c@);
            match res {
                Err(e) => {
                    proof {
                        if j < to {
                            lemma_first_is(rest, '/', j - start);
                        } else {
                            lemma_none_is(rest, '/');
                            assert(rest =~= piece);
                        }
                    }
                    return Err(e);
                },
                Ok(opt) => {
                    match opt {
                        Some(c) => {
                            acc.push(c);
                        },
                        None => {},
                    }
                    let ghost new_acc = acc@.map_values(|c: String| c@);
                    assert(new_acc =~= old_acc + piece_components(piece)->Ok_0);
                    assert(valid_components(new_acc)) by {
                        assert forall|i: int| 0 <= i < new_acc.len() implies valid_component(
                            #[trigger] new_acc[i],
                        ) by {
                            if i < old_acc.len() {
                                assert(new_acc[i] == old_acc[i]);
                            }
                        }
                    }
                    if j == to {
                        proof {
                            lemma_none_is(rest, '/');
                            assert(rest =~= piece);
                        }
                        return Ok(acc);
                    }
                    proof {
                        lemma_first_is(rest, '/', j - start);
                        assert(rest.skip(j - start + 1) =~= v@.subrange(j + 1, to as int));
                        assert(relative_components(rest) == prepend_components(
                            piece_components(piece),
                            relative_components(v@.subrange(j + 1, to as int)),
                        ));
                        lemma_prepend_assoc(
                            old_acc,
                            piece_components(piece)->Ok_0,
                            relative_components(v@.subrange(j + 1, to as int)),
                        );
                    }
                    start = j + 1;
                },
            }
        }
    }

    /// Builds a path from validated components.
    fn from_components(comps: Vec<String>, is_directory: bool) -> (p: WorkspacePath)
        requires
            valid_components(comps@.map_values(|c: String| c@)),
        ensures
            p@ == (comps@.map_values(|c: String| c@), is_directory),
    {
        let text = join_components(&comps);
        WorkspacePath { components: comps, text, is_directory }
    }

    /// The repository root, `.`.
    pub fn root_path() -> (p: WorkspacePath)
        ensures
            p@ == (Seq::<Seq<char>>::empty(), false),
    {
        WorkspacePath::root(false)
    }

    /// The path with the given components, each already a valid component.
    pub fn from_valid_components(comps: Vec<String>, is_directory: bool) -> (p: WorkspacePath)
        requires
            valid_components(comps@.map_values(|c: String| c@)),
        ensures
            p@ == (comps@.map_values(|c: String| c@), is_directory),
    {
        WorkspacePath::from_components(comps, is_directory)
    }

    /// The repository root.
    fn root(is_directory: bool) -> (p: WorkspacePath)
        ensures
            p@ == (Seq::<Seq<char>>::empty(), is_directory),
    {
        let comps: Vec<String> = Vec::new();
        assert(comps@.map_values(|c: String| c@) =~= Seq::<Seq<char>>::empty());
        WorkspacePath::from_components(comps, is_directory)
    }

    /// The same path with the directory flag replaced.
    fn with_directory(self, is_directory: bool) -> (p: WorkspacePath)
        ensures
            p@ == (self@.0, is_directory),
    {
        proof {
            use_type_invariant(&self);
        }
        WorkspacePath { components: self.components, text: self.text, is_directory }
    }

    /// The text of the path (`.` for the root).
    pub fn as_str(&self) -> (r: &str)
        ensures
            r@ == self.text(),
    {
        proof {
            use_type_invariant(self);
        }
        self.text.as_str()
    }

    /// Whether the path was written with a trailing `/`.
    pub fn is_directory(&self) -> (r: bool)
        ensures
            r == self.dir(),
    {
        self.is_directory
    }

    /// The number of components (0 for the root).
    pub fn depth(&self) -> (r: usize)
        ensures
            r == self.comps().len(),
    {
        self.components.len()
    }

    /// Whether the path lies inside `.repo/`.
    pub fn is_reserved(&self) -> (r: bool)
        ensures
            r == (self.comps().len() > 0 && self.comps()[0] == repo_dir_name()),
    {
        if self.components.len() == 0 {
            return false;
        }
        let first = chars_of(self.components[0].as_str());
        let repo: Vec<char> = vec!['.', 'r', 'e', 'p', 'o'];
        assert(repo@ =~= repo_dir_name());
        chars_equal(&first, &repo)
    }

    /// Whether this path lies under `other`, component by component.
    pub fn starts_with(&self, other: &WorkspacePath) -> (r: bool)
        ensures
            r == components_start_with(self.comps(), other.comps()),
    {
        let n = other.components.len();
        if n == 0 {
            return self.components.len() == 0;
        }
        if n > self.components.len() {
            return false;
        }
        let mut i: usize = 0;
        while i < n
            invariant
                n == other.components@.len(),
                n <= self.components@.len(),
                i <= n,
                forall|k: int| 0 <= k < i ==> self.components@[k]@ == other.components@[k]@,
            decreases n - i,
        {
            if self.components[i] != other.components[i] {
                assert(self.comps().subrange(0, n as int)[i as int] != other.comps()[i as int]);
                return false;
            }
            i = i + 1;
        }
        assert(self.comps().subrange(0, n as int) =~= other.comps());
        true
    }

    /// The text of the part of this path below `other`, if it lies under it.
    pub fn strip_prefix(&self, other: &WorkspacePath) -> (r: Option<String>)
        ensures
            match r {
                Some(s) => components_start_with(self.comps(), other.comps()) && s@ == join_with(
                    self.comps().skip(other.comps().len() as int),
                    slash(),
                ),
                None => !components_start_with(self.comps(), other.comps()),
            },
    {
        if !self.starts_with(other) {
            return None;
        }
        let n = other.components.len();
        let mut rest: Vec<String> = Vec::new();
        let mut i = n;
        while i < self.components.len()
            invariant
                n == other.comps().len(),
                n <= i <= self.components@.len(),
                rest@.map_values(|c: String| c@) == self.comps().subrange(n as int, i as int),
            decreases self.components@.len() - i,
        {
            let c = self.components[i].clone();
            assert(c@ == self.comps()[i as int]);
            let ghost before = rest@;
            rest.push(c);
            proof {
                lemma_views_push(before, c);
                assert(self.comps().subrange(n as int, i + 1) =~= self.comps().subrange(
                    n as int,
                    i as int,
                ).push(c@));
            }
            i = i + 1;
        }
        assert(self.comps().subrange(n as int, self.comps().len() as int) =~= self.comps().skip(
            n as int,
        ));
        Some(join_texts(&rest))
    }

    /// The components, as strings.
    pub fn component_list(&self) -> (r: Vec<String>)
        ensures
            r@.map_values(|c: String| c@) == self.comps(),
    {
        self.components_from(0)
    }

    /// The components from index `from` on.
    pub fn components_from(&self, from: usize) -> (r: Vec<String>)
        requires
            from <= self.comps().len(),
        ensures
            r@.map_values(|c: String| c@) == self.comps().skip(from as int),
    {
        let mut out: Vec<String> = Vec::new();
        let mut i = from;
        let start = i;
        while i < self.components.len()
            invariant
                start <= i <= self.components@.len(),
                start == from,
                out@.map_values(|c: String| c@) == self.comps().subrange(start as int, i as int),
            decreases self.components@.len() - i,
        {
            let c = self.components[i].clone();
            let ghost before = out@;
            out.push(c);
            proof {
                lemma_views_push(before, c);
                assert(self.comps().subrange(start as int, i + 1) =~= self.comps().subrange(
                    start as int,
                    i as int,
                ).push(c@));
            }
            i = i + 1;
        }
        assert(self.comps().subrange(start as int, self.comps().len() as int) =~= self.comps().skip(
            from as int,
        ));
        out
    }

    /// `base` joined with the text of this path.
    pub fn join_to(&self, base: &str) -> (r: String)
        ensures
            r@ == join_path(base@, self.text()),
    {
        let rel = chars_of(self.as_str());
        let b = chars_of(base);
        let mut out = b.clone();
        if rel.len() > 0 && rel[0] == '/' {
            return string_of(&rel);
        }
        if b.len() > 0 && b[b.len() - 1] != '/' {
            out.push('/');
        }
        let mut i: usize = 0;
        let ghost head = out@;
        while i < rel.len()
            invariant
                i <= rel@.len(),
                out@ == head + rel@.subrange(0, i as int),
            decreases rel@.len() - i,
        {
            out.push(rel[i]);
            assert(rel@.subrange(0, i + 1) =~= rel@.subrange(0, i as int).push(rel@[i as int]));
            i = i + 1;
        }
        assert(rel@.subrange(0, rel@.len() as int) =~= rel@);
        proof {
            if b@.len() > 0 && b@.last() != '/' {
                assert(head =~= base@ + slash());
            } else {
                assert(head =~= base@);
            }
        }
        string_of(&out)
    }
}

impl Clone for WorkspacePath {
    fn clone(&self) -> (r: Self)
        ensures
            r@ == self@,
    {
        proof {
            use_type_invariant(self);
        }
        let mut comps: Vec<String> = Vec::new();
        let mut i: usize = 0;
        while i < self.components.len()
            invariant
                i <= self.components@.len(),
                comps@.map_values(|c: String| c@) == self.components@.map_values(
                    |c: String| c@,
                ).subrange(0, i as int),
            decreases self.components@.len() - i,
        {
            let c = self.components[i].clone();
            assert(c@ == self.components@[i as int]@);
            let ghost before = comps@;
            comps.push(c);
            proof {
                lemma_views_push(before, c);
                assert(self.components@.map_values(|c: String| c@).subrange(0, i + 1)
                    =~= self.components@.map_values(|c: String| c@).subrange(0, i as int).push(
                    c@,
                ));
            }
            i = i + 1;
        }
        assert(self.components@.map_values(|c: String| c@).subrange(
            0,
            self.components@.len() as int,
        ) =~= self.components@.map_values(|c: String| c@));
        WorkspacePath::from_components(comps, self.is_directory)
    }
}

/// The views of a list of strings after a push.
pub proof fn lemma_views_push(s: Seq<String>, c: String)
    ensures
        s.push(c).map_values(|x: String| x@) == s.map_values(|x: String| x@).push(c@),
{
    assert(s.push(c).map_values(|x: String| x@) =~= s.map_values(|x: String| x@).push(c@));
}

proof fn lemma_prepend_assoc(
    a: Seq<Seq<char>>,
    b: Seq<Seq<char>>,
    t: Result<Seq<Seq<char>>, PathError>,
)
    ensures
        prepend_components(Ok(a), prepend_components(Ok(b), t)) == prepend_components(
            Ok(a + b),
            t,
        ),
{
    match t {
        Ok(x) => {
            assert((a + b) + x =~= a + (b + x));
        },
        Err(_) => {},
    }
}

/// `v[from..to]` ends with `/` exactly when its last character is `/`.
proof fn lemma_ends_with_slash(v: Seq<char>, from: int, to: int)
    requires
        0 <= from <= to <= v.len(),
    ensures
        (to > from && v[to - 1] == '/') == has_suffix(v.subrange(from, to), slash()),
{
    let t = v.subrange(from, to);
    if to > from {
        assert(t.subrange(t.len() - 1, t.len() as int) =~= seq![v[to - 1]]);
        if has_suffix(t, slash()) {
            assert(seq![v[to - 1]][0] == slash()[0]);
        }
        if v[to - 1] == '/' {
            assert(seq![v[to - 1]] =~= slash());
        }
    }
}

/// The first index of `c` in `v[from..to]`, or `to` when there is none.
fn find_char(v: &Vec<char>, from: usize, to: usize, c: char) -> (j: usize)
    requires
        from <= to <= v@.len(),
    ensures
        from <= j <= to,
        j < to ==> v@[j as int] == c,
        forall|k: int| from <= k < j ==> v@[k] != c,
{
    let mut j = from;
    while j < to && v[j] != c
        invariant
            from <= j <= to <= v@.len(),
            forall|k: int| from <= k < j ==> v@[k] != c,
        decreases to - j,
    {
        j = j + 1;
    }
    j
}

proof fn lemma_first_is(s: Seq<char>, c: char, i: int)
    requires
        0 <= i < s.len(),
        s[i] == c,
        forall|k: int| 0 <= k < i ==> s[k] != c,
    ensures
        first_index_of(s, c) == Some(i),
{
    lemma_first_index_of(s, c);
    match first_index_of(s, c) {
        Some(j) => {
            if j < i {
                assert(s[j] != c);
            } else if j > i {
                assert(s[i] != c);
            }
        },
        None => {
            assert(s[i] != c);
        },
    }
}

proof fn lemma_none_is(s: Seq<char>, c: char)
    requires
        forall|k: int| 0 <= k < s.len() ==> s[k] != c,
    ensures
        first_index_of(s, c) == None::<int>,
{
    lemma_first_index_of(s, c);
    match first_index_of(s, c) {
        Some(j) => {
            assert(s[j] != c);
        },
        None => {},
    }
}

/// The component contributed by the piece `v[from..to]`, which holds no `/`.
fn piece_of(v: &Vec<char>, from: usize, to: usize) -> (r: Result<Option<String>, PathError>)
    requires
        from <= to <= v@.len(),
        forall|k: int| from <= k < to ==> v@[k] != '/',
    ensures
        match r {
            Err(e) => piece_components(v@.subrange(from as int, to as int)) == Err::<
                Seq<Seq<char>>,
                PathError,
            >(e),
            Ok(None) => piece_components(v@.subrange(from as int, to as int)) == Ok::<
                Seq<Seq<char>>,
                PathError,
            >(Seq::empty()),
            Ok(Some(c)) => piece_components(v@.subrange(from as int, to as int)) == Ok::<
                Seq<Seq<char>>,
                PathError,
            >(seq![c@]) && valid_component(c@),
        },
{
    let ghost p = v@.subrange(from as int, to as int);
    let len = to - from;
    if len == 2 && v[from] == '.' && v[from + 1] == '.' {
        assert(p =~= dot_dot());
        return Err(PathError::PathEscapesRepositoryRoot);
    }
    assert(p.len() == len);
    assert(p != dot_dot()) by {
        if p == dot_dot() {
            assert(dot_dot()[0] == '.' && dot_dot()[1] == '.');
            assert(p[0] == v@[from as int] && p[1] == v@[from + 1]);
        }
    }
    if len == 0 || (len == 1 && v[from] == '.') {
        assert(len == 0 ==> p.len() == 0);
        assert(len == 1 && v@[from as int] == '.' ==> p =~= dot());
        return Ok(None);
    }
    assert(p != dot()) by {
        if p == dot() {
            assert(dot()[0] == '.');
            assert(p[0] == v@[from as int]);
        }
    }
    let s = string_of_range(v.as_slice(), from, to);
    assert(!p.contains('/')) by {
        if p.contains('/') {
            let k = choose|k: int| 0 <= k < p.len() && p[k] == '/';
            assert(v@[from + k] == '/');
        }
    }
    Ok(Some(s))
}

/// The text of a list of components (`.` when empty).
fn join_components(comps: &Vec<String>) -> (r: String)
    ensures
        r@ == components_text(comps@.map_values(|c: String| c@)),
{
    if comps.len() == 0 {
        let v: Vec<char> = vec!['.'];
        let r = string_of(&v);
        assert(v@ =~= dot());
        return r;
    }
    join_texts(comps)
}

/// The components joined with `/` (empty when there are none).
fn join_texts(comps: &Vec<String>) -> (r: String)
    ensures
        r@ == join_with(comps@.map_values(|c: String| c@), slash()),
{
    let ghost cs = comps@.map_values(|c: String| c@);
    let mut out: Vec<char> = Vec::new();
    let mut i: usize = 0;
    while i < comps.len()
        invariant
            cs == comps@.map_values(|c: String| c@),
            i <= comps@.len(),
            out@ == join_with(cs.subrange(0, i as int), slash()),
        decreases comps@.len() - i,
    {
        let ghost before = out@;
        if i > 0 {
            out.push('/');
        }
        extend_chars(&mut out, comps[i].as_str());
        proof {
            let sub = cs.subrange(0, i + 1);
            assert(sub.drop_last() =~= cs.subrange(0, i as int));
            assert(sub.last() == cs[i as int]);
            if i == 0 {
                assert(out@ =~= cs[0]);
            } else {
                assert(out@ =~= before + slash() + cs[i as int]);
            }
        }
        i = i + 1;
    }
    assert(cs.subrange(0, comps@.len() as int) =~= cs);
    string_of(&out)
}

/// `base` joined with `rel` (`Utf8Path::join`).
pub fn join_text(base: &str, rel: &str) -> (r: String)
    ensures
        r@ == join_path(base@, rel@),
{
    let b = chars_of(base);
    let t = chars_of(rel);
    if t.len() > 0 && t[0] == '/' {
        return String::from_str(rel);
    }
    if b.len() == 0 {
        return String::from_str(rel);
    }
    let mut out = b.clone();
    if b[b.len() - 1] != '/' {
        out.push('/');
    }
    let ghost head = out@;
    extend_chars(&mut out, rel);
    proof {
        if b@.last() != '/' {
            assert(head =~= base@ + slash());
        } else {
            assert(head =~= base@);
        }
    }
    string_of(&out)
}

/// The fixed names `.repo` and `generated` are valid components.
pub proof fn lemma_fixed_components()
    ensures
        valid_component(".repo"@),
        valid_component("generated"@),
{
    reveal_strlit(".repo");
    reveal_strlit("generated");
    assert(".repo"@.len() == 5);
    assert("generated"@.len() == 9);
    assert forall|i: int| 0 <= i < ".repo"@.len() implies ".repo"@[i] != '/' by {}
    assert forall|i: int| 0 <= i < "generated"@.len() implies "generated"@[i] != '/' by {}
}

/// Joining two or more parts puts the first part, the separator and the
/// join of the rest.
proof fn lemma_join_first(cs: Seq<Seq<char>>, sep: Seq<char>)
    requires
        cs.len() >= 2,
    ensures
        join_with(cs, sep) == cs[0] + sep + join_with(cs.drop_first(), sep),
    decreases cs.len(),
{
    assert(join_with(cs, sep) == join_with(cs.drop_last(), sep) + sep + cs.last());
    if cs.len() == 2 {
        assert(join_with(cs.drop_last(), sep) == cs[0]);
        assert(join_with(cs.drop_first(), sep) == cs.last());
    } else {
        lemma_join_first(cs.drop_last(), sep);
        assert(cs.drop_last().drop_first() =~= cs.drop_first().drop_last());
        assert(cs.drop_first().last() == cs.last());
        assert(cs.drop_last()[0] == cs[0]);
        let a = join_with(cs.drop_last().drop_first(), sep);
        assert(join_with(cs.drop_first(), sep) == a + sep + cs.last());
        assert(cs[0] + sep + (a + sep + cs.last()) =~= (cs[0] + sep + a) + sep + cs.last());
    }
}

/// The first `c` of `a`, `c` and `b` is the one after `a` when `a` holds
/// none.
proof fn lemma_first_index_after(a: Seq<char>, c: char, b: Seq<char>)
    requires
        !a.contains(c),
    ensures
        first_index_of(a + seq![c] + b, c) == Some(a.len() as int),
    decreases a.len(),
{
    let s = a + seq![c] + b;
    if a.len() > 0 {
        assert(s[0] == a[0]);
        assert(s.drop_first() =~= a.drop_first() + seq![c] + b);
        assert(!a.drop_first().contains(c)) by {
            if a.drop_first().contains(c) {
                let i = choose|i: int| 0 <= i < a.drop_first().len() && a.drop_first()[i] == c;
                assert(a[i + 1] == c);
            }
        }
        lemma_first_index_after(a.drop_first(), c, b);
    } else {
        assert(s[0] == c);
    }
}

/// A text holding no `c` has no first `c`.
proof fn lemma_first_index_none(a: Seq<char>, c: char)
    requires
        !a.contains(c),
    ensures
        first_index_of(a, c) is None,
    decreases a.len(),
{
    if a.len() > 0 {
        assert(a[0] != c);
        assert(!a.drop_first().contains(c)) by {
            if a.drop_first().contains(c) {
                let i = choose|i: int| 0 <= i < a.drop_first().len() && a.drop_first()[i] == c;
                assert(a[i + 1] == c);
            }
        }
        lemma_first_index_none(a.drop_first(), c);
    }
}

/// Reading back the text of valid components gives the components.
proof fn lemma_relative_join(cs: Seq<Seq<char>>)
    requires
        cs.len() >= 1,
        valid_components(cs),
    ensures
        relative_components(join_with(cs, slash())) == Ok::<Seq<Seq<char>>, PathError>(cs),
    decreases cs.len(),
{
    assert(valid_component(cs[0]));
    if cs.len() == 1 {
        lemma_first_index_none(cs[0], '/');
        assert(seq![cs[0]] =~= cs);
    } else {
        lemma_join_first(cs, slash());
        let rest = join_with(cs.drop_first(), slash());
        let t = join_with(cs, slash());
        lemma_first_index_after(cs[0], '/', rest);
        assert(t.subrange(0, cs[0].len() as int) =~= cs[0]);
        assert(t.skip(cs[0].len() as int + 1) =~= rest);
        assert(valid_components(cs.drop_first())) by {
            assert forall|i: int| 0 <= i < cs.drop_first().len() implies valid_component(
                #[trigger] cs.drop_first()[i],
            ) by {
                assert(valid_component(cs[i + 1]));
            }
        }
        lemma_relative_join(cs.drop_first());
        assert(seq![cs[0]] + cs.drop_first() =~= cs);
    }
}

/// The text of valid components starts with the first component and ends
/// with the last.
pub proof fn lemma_join_ends(cs: Seq<Seq<char>>)
    requires
        cs.len() >= 1,
        valid_components(cs),
    ensures
        join_with(cs, slash()).len() > 0,
        join_with(cs, slash())[0] == cs[0][0],
        join_with(cs, slash()).last() == cs.last().last(),
{
    assert(valid_component(cs[0]));
    assert(valid_component(cs.last()));
    if cs.len() >= 2 {
        lemma_join_first(cs, slash());
    }
}

/// A path's text read back as a configuration path gives the path's
/// components again, unless the text begins or ends with whitespace, which
/// reading trims.
pub proof fn lemma_text_reads_back(cs: Seq<Seq<char>>)
    requires
        valid_components(cs),
        trim_ws(components_text(cs)) == components_text(cs),
    ensures
        spec_from_path_str(components_text(cs)) == Ok::<(Seq<Seq<char>>, bool), PathError>(
            (cs, false),
        ),
{
    let t = components_text(cs);
    if cs.len() == 0 {
        assert(t == dot());
        assert(!dot().contains('/'));
        lemma_first_index_none(dot(), '/');
        assert(t.subrange(0, 1) =~= dot());
        assert(dot()[0] != slash()[0]);
        assert(!has_suffix(t, slash()));
        assert(trim_end_char(t, '/') == t);
        assert(relative_components(t) == Ok::<Seq<Seq<char>>, PathError>(Seq::empty()));
        assert(cs =~= Seq::<Seq<char>>::empty());
    } else {
        lemma_join_ends(cs);
        assert(valid_component(cs.last()));
        assert(valid_component(cs[0]));
        assert(cs.last().last() != '/') by {
            assert(cs.last().contains(cs.last().last()));
        }
        assert(cs[0][0] != '/') by {
            assert(cs[0].contains(cs[0][0]));
        }
        assert(!has_suffix(t, slash())) by {
            assert(t.subrange(t.len() - 1, t.len() as int)[0] == t.last());
        }
        assert(trim_end_char(t, '/') == t);
        lemma_relative_join(cs);
    }
}

/// A path read from a URL never lies inside `.repo/`, and names a
/// directory exactly when the URL, trailing whitespace aside, ends with
/// `/`.
pub proof fn lemma_url_path_outside_repo(p: Seq<char>)
    requires
        spec_from_url(p) is Ok,
    ensures
        !(spec_from_url(p)->Ok_0.0.len() > 0 && spec_from_url(p)->Ok_0.0[0] == repo_dir_name()),
        spec_from_url(p)->Ok_0.1 == has_suffix(trim_end_ws(p), slash()),
{
    if p == slash() {
        assert(!is_ws('/'));
        assert(trim_end_ws(p) == p);
        assert(p.subrange(0, 1) =~= slash());
    }
}

/// Reading a relative path piece by piece keeps only valid components,
/// and fails, always as an escape from the root, exactly when a piece is
/// `..`.
proof fn lemma_relative_components_facts(s: Seq<char>)
    ensures
        relative_components(s) is Ok ==> valid_components(relative_components(s)->Ok_0),
        relative_components(s) is Err ==> relative_components(s) == Err::<Seq<Seq<char>>, PathError>(
            PathError::PathEscapesRepositoryRoot,
        ),
        relative_components(s) is Err <==> split_on(s, '/').contains(dot_dot()),
    decreases s.len(),
{
    lemma_first_index_of(s, '/');
    match first_index_of(s, '/') {
        None => {
            assert(split_on(s, '/') == seq![s]);
            if s == dot_dot() {
                assert(split_on(s, '/')[0] == dot_dot());
            }
            if split_on(s, '/').contains(dot_dot()) {
                assert(s == dot_dot());
            }
            if s.contains('/') {
                let j = choose|j: int| 0 <= j < s.len() && s[j] == '/';
            }
        },
        Some(i) => {
            let head = s.subrange(0, i);
            let rest = s.skip(i + 1);
            lemma_relative_components_facts(rest);
            let pieces = split_on(s, '/');
            assert(pieces == seq![head] + split_on(rest, '/'));
            if head.contains('/') {
                let j = choose|j: int| 0 <= j < head.len() && head[j] == '/';
                assert(s[j] == '/');
            }
            if head == dot_dot() {
                assert(pieces[0] == dot_dot());
            }
            if split_on(rest, '/').contains(dot_dot()) {
                let j = choose|j: int| 0 <= j < split_on(rest, '/').len() && split_on(rest, '/')[j] == dot_dot();
                assert(pieces[j + 1] == dot_dot());
            }
            if pieces.contains(dot_dot()) {
                let j = choose|j: int| 0 <= j < pieces.len() && pieces[j] == dot_dot();
                if j > 0 {
                    assert(split_on(rest, '/')[j - 1] == dot_dot());
                }
            }
            if relative_components(s) is Ok {
                let h = piece_components(head)->Ok_0;
                let t = relative_components(rest)->Ok_0;
                assert(relative_components(s)->Ok_0 == h + t);
                assert forall|k: int| 0 <= k < (h + t).len() implies valid_component(#[trigger] (h + t)[k]) by {
                    if k >= h.len() {
                        assert((h + t)[k] == t[k - h.len()]);
                    }
                }
            }
        },
    }
}

/// Path safety of configuration paths. A path that is read has
/// components that are non-empty, hold no `/` and are neither `.` nor
/// `..`; it is written `.` or as those components joined by `/`, never
/// with a leading `/`; and, unless it is the root, it names a directory
/// exactly when its trimmed text ends with `/`. Once surrounding
/// whitespace and trailing slashes are dropped, a path that starts with
/// `/` is refused as absolute, and one with a `..` piece as escaping the
/// root.
pub proof fn lemma_path_safety(p: Seq<char>)
    ensures
        spec_from_path_str(p) matches Ok(r) ==> {
            &&& valid_components(r.0)
            &&& components_text(r.0) == dot() || (components_text(r.0).len() > 0
                && components_text(r.0)[0] != '/')
            &&& trim_end_char(trim_ws(p), '/').len() > 0 ==> r.1 == has_suffix(trim_ws(p), slash())
        },
        ({
            let n = trim_end_char(trim_ws(p), '/');
            &&& n.len() > 0 && n[0] == '/' ==> spec_from_path_str(p) == Err::<
                (Seq<Seq<char>>, bool),
                PathError,
            >(PathError::AbsolutePathNotAllowed)
            &&& n.len() > 0 && n[0] != '/' && split_on(n, '/').contains(dot_dot())
                ==> spec_from_path_str(p) == Err::<(Seq<Seq<char>>, bool), PathError>(
                PathError::PathEscapesRepositoryRoot,
            )
        }),
{
    let n = trim_end_char(trim_ws(p), '/');
    if n.len() > 0 && n[0] != '/' {
        lemma_relative_components_facts(n);
    }
    if spec_from_path_str(p) is Ok {
        let cs = spec_from_path_str(p)->Ok_0.0;
        if cs.len() > 0 {
            lemma_join_ends(cs);
            assert(valid_component(cs[0]));
            assert(cs[0].contains(cs[0][0]));
        }
    }
}

/// Joining two texts that both lack a character gives a text that lacks
/// it, unless the character is the `/` put between them.
pub proof fn lemma_join_path_keeps_out(base: Seq<char>, rel: Seq<char>, c: char)
    requires
        !base.contains(c),
        !rel.contains(c),
        c != '/',
    ensures
        !join_path(base, rel).contains(c),
{
    let v = join_path(base, rel);
    if v.contains(c) {
        let j = choose|j: int| 0 <= j < v.len() && v[j] == c;
        if !(rel.len() > 0 && rel[0] == '/') && base.len() > 0 {
            if j < base.len() {
                assert(v[j] == base[j]);
            } else if base.last() == '/' {
                assert(v[j] == rel[j - base.len()]);
            } else if j > base.len() {
                assert(v[j] == rel[j - base.len() - 1]);
            }
        }
    }
}

} // verus!
