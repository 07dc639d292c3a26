//! Where a repository path lives on disk, and the decisions the
//! filesystem repository takes from what it observes there.
//!
//! A requested path is resolved either into a plugin's generated output
//! (when it lies under the plugin's mount) or into the repository itself;
//! paths under `.repo/` or a virtual URL prefix are refused. Every
//! operation first checks that no ancestor of the resolved path is a
//! symbolic link, then decides from whether the target exists and is a
//! directory.
use vstd::prelude::*;

use crate::path::{components_start_with, components_text, join_path, join_text, slash, WorkspacePath};
use crate::rules::{mounts_parse, mount_slashes_ok};
use crate::server::config::{
    first_plugin_error, lemma_no_plugin_error, plugin_error, plugin_mounts, spec_validate,
    PluginConfig, RepositoryConfig,
};
use crate::settings::{
    path_comps, plugin_name_ok, prefix_path, spec_check_serve, spec_prefix_path, spec_reserved_paths,
    ServeSettings,
};
use crate::text::{join_with, lemma_texts_push, seq_lt, texts};

verus! {

/// Why the repository refused an operation.
#[derive(Debug, Clone, PartialEq, Eq)]
pub enum RepositoryError {
    ReservedPath,
    ResolvedPathEscapesRepositoryRoot,
    SymlinkPathNotAllowed,
    ParentDirectoryNotFound,
    ParentPathNotDirectory,
    NotDirectory,
    DirectoryAlreadyExists,
    DirectoryNotFound,
    FileAlreadyExists,
    FileNotFound,
    PathIsDirectory,
    PathIsNotDirectory,
    DirectoryNotEmpty,
    NonUtf8Path,
    InvalidDirectoryEntry,
    Internal(String),
}

/// A [`RepositoryError`] with its text taken by value.
pub enum RepositoryErrorView {
    ReservedPath,
    ResolvedPathEscapesRepositoryRoot,
    SymlinkPathNotAllowed,
    ParentDirectoryNotFound,
    ParentPathNotDirectory,
    NotDirectory,
    DirectoryAlreadyExists,
    DirectoryNotFound,
    FileAlreadyExists,
    FileNotFound,
    PathIsDirectory,
    PathIsNotDirectory,
    DirectoryNotEmpty,
    NonUtf8Path,
    InvalidDirectoryEntry,
    Internal(Seq<char>),
}

impl View for RepositoryError {
    type V = RepositoryErrorView;

    open spec fn view(&self) -> RepositoryErrorView {
        match self {
            RepositoryError::ReservedPath => RepositoryErrorView::ReservedPath,
            RepositoryError::ResolvedPathEscapesRepositoryRoot => RepositoryErrorView::ResolvedPathEscapesRepositoryRoot,
            RepositoryError::SymlinkPathNotAllowed => RepositoryErrorView::SymlinkPathNotAllowed,
            RepositoryError::ParentDirectoryNotFound => RepositoryErrorView::ParentDirectoryNotFound,
            RepositoryError::ParentPathNotDirectory => RepositoryErrorView::ParentPathNotDirectory,
            RepositoryError::NotDirectory => RepositoryErrorView::NotDirectory,
            RepositoryError::DirectoryAlreadyExists => RepositoryErrorView::DirectoryAlreadyExists,
            RepositoryError::DirectoryNotFound => RepositoryErrorView::DirectoryNotFound,
            RepositoryError::FileAlreadyExists => RepositoryErrorView::FileAlreadyExists,
            RepositoryError::FileNotFound => RepositoryErrorView::FileNotFound,
            RepositoryError::PathIsDirectory => RepositoryErrorView::PathIsDirectory,
            RepositoryError::PathIsNotDirectory => RepositoryErrorView::PathIsNotDirectory,
            RepositoryError::DirectoryNotEmpty => RepositoryErrorView::DirectoryNotEmpty,
            RepositoryError::NonUtf8Path => RepositoryErrorView::NonUtf8Path,
            RepositoryError::InvalidDirectoryEntry => RepositoryErrorView::InvalidDirectoryEntry,
            RepositoryError::Internal(m) => RepositoryErrorView::Internal(m@),
        }
    }
}

impl RepositoryError {
    /// The message reported for the error.
    pub open spec fn spec_message(&self) -> Seq<char> {
        match self {
            RepositoryError::ReservedPath => "reserved path"@,
            RepositoryError::ResolvedPathEscapesRepositoryRoot => "resolved path escapes repository root"@,
            RepositoryError::SymlinkPathNotAllowed => "symlink path is not allowed"@,
            RepositoryError::ParentDirectoryNotFound => "parent directory not found"@,
            RepositoryError::ParentPathNotDirectory => "parent path is not a directory"@,
            RepositoryError::NotDirectory => "not a directory"@,
            RepositoryError::DirectoryAlreadyExists => "directory already exists"@,
            RepositoryError::DirectoryNotFound => "directory not found"@,
            RepositoryError::FileAlreadyExists => "file already exists"@,
            RepositoryError::FileNotFound => "file not found"@,
            RepositoryError::PathIsDirectory => "path is a directory"@,
            RepositoryError::PathIsNotDirectory => "path is not a directory"@,
            RepositoryError::DirectoryNotEmpty => "directory is not empty"@,
            RepositoryError::NonUtf8Path => "non-UTF-8 path"@,
            RepositoryError::InvalidDirectoryEntry => "invalid directory entry"@,
            RepositoryError::Internal(m) => m@,
        }
    }

    /// The message reported for the error.
    pub fn message(&self) -> (r: String)
        ensures
            r@ == self.spec_message(),
    {
        match self {
            RepositoryError::ReservedPath => String::from_str("reserved path"),
            RepositoryError::ResolvedPathEscapesRepositoryRoot => String::from_str(
                "resolved path escapes repository root",
            ),
            RepositoryError::SymlinkPathNotAllowed => String::from_str("symlink path is not allowed"),
            RepositoryError::ParentDirectoryNotFound => String::from_str("parent directory not found"),
            RepositoryError::ParentPathNotDirectory => String::from_str(
                "parent path is not a directory",
            ),
            RepositoryError::NotDirectory => String::from_str("not a directory"),
            RepositoryError::DirectoryAlreadyExists => String::from_str("directory already exists"),
            RepositoryError::DirectoryNotFound => String::from_str("directory not found"),
            RepositoryError::FileAlreadyExists => String::from_str("file already exists"),
            RepositoryError::FileNotFound => String::from_str("file not found"),
            RepositoryError::PathIsDirectory => String::from_str("path is a directory"),
            RepositoryError::PathIsNotDirectory => String::from_str("path is not a directory"),
            RepositoryError::DirectoryNotEmpty => String::from_str("directory is not empty"),
            RepositoryError::NonUtf8Path => String::from_str("non-UTF-8 path"),
            RepositoryError::InvalidDirectoryEntry => String::from_str("invalid directory entry"),
            RepositoryError::Internal(m) => m.clone(),
        }
    }
}

/// A plugin's mount: requests under `alias` are served from `source`.
#[derive(Debug)]
pub struct MountedDirectory {
    pub alias: WorkspacePath,
    pub source: WorkspacePath,
}

/// The on-disk layout of a repository.
#[derive(Debug)]
pub struct FsRepository {
    pub repository_root: String,
    pub mounts: Vec<MountedDirectory>,
    pub reserved_paths: Vec<WorkspacePath>,
}

/// A resolved path: its text on disk and its components below the
/// repository root.
#[derive(Debug)]
pub struct ResolvedPath {
    pub path: String,
    pub relative: Vec<String>,
}

/// `rp` is where the path with `rest` below a mount whose output is
/// `source` lives.
pub open spec fn mounted_resolution(
    root: Seq<char>,
    source: Seq<Seq<char>>,
    rest: Seq<Seq<char>>,
    rp: ResolvedPath,
) -> bool {
    &&& rp.path@ == (if join_with(rest, slash()).len() > 0 {
        join_path(join_path(root, components_text(source)), join_with(rest, slash()))
    } else {
        join_path(root, components_text(source))
    })
    &&& texts(rp.relative@) == source + rest
}

/// Appends copies of `extra` to `v`.
pub fn append_strings(v: &mut Vec<String>, extra: &Vec<String>)
    ensures
        texts(final(v)@) == texts(old(v)@) + texts(extra@),
{
    let mut i: usize = 0;
    while i < extra.len()
        invariant
            i <= extra@.len(),
            texts(v@) == texts(old(v)@) + texts(extra@).subrange(0, i as int),
        decreases extra@.len() - i,
    {
        let ghost before = v@;
        v.push(extra[i].clone());
        proof {
            lemma_texts_push(before, extra@[i as int]);
            assert(texts(extra@).subrange(0, i + 1) =~= texts(extra@).subrange(0, i as int).push(
                extra@[i as int]@,
            ));
        }
        i = i + 1;
    }
    assert(texts(extra@).subrange(0, extra@.len() as int) =~= texts(extra@));
}

/// The components of a plugin's generated output, `.repo/<name>/generated`.
pub open spec fn generated_comps(name: Seq<char>) -> Seq<Seq<char>> {
    seq![".repo"@, name, "generated"@]
}

/// What `config` must satisfy for its layout to be built: every mount and
/// every virtual prefix denotes a repository path, and plugin names can be
/// path components. A validated configuration satisfies it.
pub open spec fn layout_ready(config: RepositoryConfig) -> bool {
    &&& forall|i: int|
        0 <= i < config.plugin@.len() ==> match #[trigger] config.plugin@[i].mount {
            Some(m) => spec_prefix_path(m@) is Ok,
            None => true,
        }
    &&& forall|i: int|
        0 <= i < config.plugin@.len() ==> crate::path::valid_component(
            (#[trigger] config.plugin@[i]).name@,
        )
    &&& spec_reserved_paths(config.serve) is Ok
}

/// A valid plugin name is a valid path component.
proof fn lemma_plugin_name_component(name: Seq<char>)
    requires
        plugin_name_ok(name),
    ensures
        crate::path::valid_component(name),
{
    assert(!name.contains('/')) by {
        if name.contains('/') {
            let i = choose|i: int| 0 <= i < name.len() && name[i] == '/';
            if i > 0 {
                assert(crate::settings::is_ascii_alnum(name[i]) || name[i] == '_' || name[i] == '-');
            }
        }
    }
    assert(name != crate::path::dot() && name != crate::path::dot_dot()) by {
        assert(crate::path::dot()[0] == '.');
        assert(crate::path::dot_dot()[0] == '.');
    }
}

/// A configuration that passed validation can be laid out: the repository
/// for it can be built.
pub proof fn lemma_validated_layout_ready(c: RepositoryConfig, dirs: Seq<bool>)
    requires
        dirs.len() == c.plugin@.len(),
        mounts_parse(plugin_mounts(c.plugin@)),
        spec_validate(c, dirs) is Ok,
    ensures
        layout_ready(c),
{
    let reserved = spec_check_serve(c.serve)->Ok_0;
    lemma_no_plugin_error(c.plugin@, dirs, reserved, 0);
    assert forall|i: int| 0 <= i < c.plugin@.len() implies match #[trigger] c.plugin@[i].mount {
        Some(m) => spec_prefix_path(m@) is Ok,
        None => true,
    } by {
        assert(plugin_error(c.plugin@, i, dirs[i], reserved) is None);
        assert(plugin_mounts(c.plugin@)[i] == c.plugin@[i].mount);
    }
    assert forall|i: int| 0 <= i < c.plugin@.len() implies crate::path::valid_component(
        (#[trigger] c.plugin@[i]).name@,
    ) by {
        assert(plugin_error(c.plugin@, i, dirs[i], reserved) is None);
        lemma_plugin_name_component(c.plugin@[i].name@);
    }
}

/// The mounts of the plugins that have one, in plugin order: the path the
/// mount denotes and the plugin's generated output.
pub open spec fn spec_mounts(plugins: Seq<PluginConfig>) -> Seq<(Seq<Seq<char>>, Seq<Seq<char>>)>
    decreases plugins.len(),
{
    if plugins.len() == 0 {
        Seq::empty()
    } else {
        let last = plugins.last();
        let rest = spec_mounts(plugins.drop_last());
        match last.mount {
            Some(m) => rest.push((spec_prefix_path(m@)->Ok_0.0, generated_comps(last.name@))),
            None => rest,
        }
    }
}

/// The reserved paths: `.repo` and the three virtual prefixes.
pub open spec fn spec_reserved(serve: ServeSettings) -> Seq<Seq<Seq<char>>> {
    seq![seq![".repo"@]] + spec_reserved_paths(serve)->Ok_0
}

impl FsRepository {
    /// The layout of the repository at `repository_root` (already
    /// resolved to a directory) configured by `config`.
    pub fn new(repository_root: &str, config: &RepositoryConfig) -> (r: FsRepository)
        requires
            layout_ready(*config),
        ensures
            r.repository_root@ == repository_root@,
            r.mounts@.len() == spec_mounts(config.plugin@).len(),
            forall|i: int|
                0 <= i < r.mounts@.len() ==> (#[trigger] r.mounts@[i]).alias.comps() == spec_mounts(
                    config.plugin@,
                )[i].0 && r.mounts@[i].source.comps() == spec_mounts(config.plugin@)[i].1,
            path_comps(r.reserved_paths@) == spec_reserved(config.serve),
    {
        FsRepository {
            repository_root: String::from_str(repository_root),
            mounts: FsRepository::mounts_from_config(config),
            reserved_paths: FsRepository::reserved_paths_from_config(config),
        }
    }

    /// One mount per plugin that has one.
    fn mounts_from_config(config: &RepositoryConfig) -> (r: Vec<MountedDirectory>)
        requires
            layout_ready(*config),
        ensures
            r@.len() == spec_mounts(config.plugin@).len(),
            forall|i: int|
                0 <= i < r@.len() ==> (#[trigger] r@[i]).alias.comps() == spec_mounts(
                    config.plugin@,
                )[i].0 && r@[i].source.comps() == spec_mounts(config.plugin@)[i].1,
    {
        let mut out: Vec<MountedDirectory> = Vec::new();
        let mut i: usize = 0;
        while i < config.plugin.len()
            invariant
                layout_ready(*config),
                i <= config.plugin@.len(),
                out@.len() == spec_mounts(config.plugin@.subrange(0, i as int)).len(),
                forall|k: int|
                    0 <= k < out@.len() ==> (#[trigger] out@[k]).alias.comps() == spec_mounts(
                        config.plugin@.subrange(0, i as int),
                    )[k].0 && out@[k].source.comps() == spec_mounts(
                        config.plugin@.subrange(0, i as int),
                    )[k].1,
            decreases config.plugin@.len() - i,
        {
            let ghost before = config.plugin@.subrange(0, i as int);
            let ghost after = config.plugin@.subrange(0, i + 1);
            assert(after.drop_last() =~= before);
            assert(after.last() == config.plugin@[i as int]);
            let plugin = &config.plugin[i];
            match &plugin.mount {
                None => {},
                Some(m) => {
                    assert(spec_prefix_path(m@) is Ok);
                    let alias = match prefix_path(m.as_str()) {
                        Ok(p) => p,
                        Err(_) => {
                            proof {
                                assert(false);
                            }
                            WorkspacePath::root_path()
                        },
                    };
                    let mut comps: Vec<String> = Vec::new();
                    comps.push(String::from_str(".repo"));
                    comps.push(plugin.name.clone());
                    comps.push(String::from_str("generated"));
                    proof {
                        crate::path::lemma_fixed_components();
                        assert(crate::path::valid_component(config.plugin@[i as int].name@));
                        assert(comps@.map_values(|c: String| c@) =~= generated_comps(plugin.name@));
                    }
                    let source = WorkspacePath::from_valid_components(comps, false);
                    out.push(MountedDirectory { alias, source });
                },
            }
            i = i + 1;
        }
        assert(config.plugin@.subrange(0, config.plugin@.len() as int) =~= config.plugin@);
        out
    }

    /// `.repo` followed by the paths of the three virtual prefixes.
    fn reserved_paths_from_config(config: &RepositoryConfig) -> (r: Vec<WorkspacePath>)
        requires
            layout_ready(*config),
        ensures
            path_comps(r@) == spec_reserved(config.serve),
    {
        let mut comps: Vec<String> = Vec::new();
        comps.push(String::from_str(".repo"));
        proof {
            crate::path::lemma_fixed_components();
            assert(comps@.map_values(|c: String| c@) =~= seq![".repo"@]);
        }
        let repo = WorkspacePath::from_valid_components(comps, false);
        let mut out: Vec<WorkspacePath> = Vec::new();
        out.push(repo);
        match crate::settings::reserved_url_prefix_paths(&config.serve) {
            Ok(v) => {
                let mut k: usize = 0;
                let ghost cs = spec_reserved_paths(config.serve)->Ok_0;
                while k < v.len()
                    invariant
                        v@.len() == 3,
                        cs.len() == 3,
                        forall|j: int| 0 <= j < 3 ==> #[trigger] v@[j].comps() == cs[j],
                        k <= 3,
                        path_comps(out@) == seq![seq![".repo"@]] + cs.subrange(0, k as int),
                    decreases 3 - k,
                {
                    let ghost before = out@;
                    assert(v@[k as int].comps() == cs[k as int]);
                    let c = v[k].clone();
                    assert(c.comps() == cs[k as int]);
                    out.push(c);
                    assert(path_comps(out@) =~= path_comps(before).push(cs[k as int]));
                    assert(cs.subrange(0, k + 1) =~= cs.subrange(0, k as int).push(cs[k as int]));
                    assert(seq![seq![".repo"@]] + cs.subrange(0, k + 1) =~= (seq![seq![".repo"@]]
                        + cs.subrange(0, k as int)).push(cs[k as int]));
                    k = k + 1;
                }
                assert(cs.subrange(0, 3) =~= cs);
            },
            Err(_) => {
                proof {
                    assert(false);
                }
            },
        }
        out
    }

    /// Whether `requested` lies under a reserved path.
    pub fn is_reserved_path(&self, requested: &WorkspacePath) -> (r: bool)
        ensures
            r == crate::settings::uses_reserved(requested.comps(), path_comps(self.reserved_paths@)),
    {
        crate::settings::path_uses_reserved_url_prefix(requested, &self.reserved_paths)
    }

    /// The first mount whose alias `requested` lies under, and where that
    /// leads on disk.
    pub fn resolve_mounted_path(&self, requested: &WorkspacePath) -> (r: Option<ResolvedPath>)
        ensures
            match r {
                None => forall|k: int|
                    0 <= k < self.mounts@.len() ==> !components_start_with(
                        requested.comps(),
                        (#[trigger] self.mounts@[k]).alias.comps(),
                    ),
                Some(rp) => exists|k: int|
                    0 <= k < self.mounts@.len() && components_start_with(
                        requested.comps(),
                        (#[trigger] self.mounts@[k]).alias.comps(),
                    ) && (forall|j: int|
                        0 <= j < k ==> !components_start_with(
                            requested.comps(),
                            self.mounts@[j].alias.comps(),
                        )) && mounted_resolution(
                        self.repository_root@,
                        self.mounts@[k].source.comps(),
                        requested.comps().skip(self.mounts@[k].alias.comps().len() as int),
                        rp,
                    ),
            },
    {
        let mut k: usize = 0;
        while k < self.mounts.len()
            invariant
                k <= self.mounts@.len(),
                forall|j: int|
                    0 <= j < k ==> !components_start_with(
                        requested.comps(),
                        (#[trigger] self.mounts@[j]).alias.comps(),
                    ),
            decreases self.mounts@.len() - k,
        {
            let mount = &self.mounts[k];
            match requested.strip_prefix(&mount.alias) {
                Some(relative) => {
                    let base = mount.source.join_to(self.repository_root.as_str());
                    let path = if relative.as_str().unicode_len() > 0 {
                        join_text(base.as_str(), relative.as_str())
                    } else {
                        base
                    };
                    let mut rel = mount.source.component_list();
                    let rest = requested.components_from(mount.alias.depth());
                    let ghost before = rel@;
                    append_strings(&mut rel, &rest);
                    let rp = ResolvedPath { path, relative: rel };
                    proof {
                        assert(texts(rest@) == rest@.map_values(|c: String| c@));
                        assert(texts(before) == before.map_values(|c: String| c@));
                        assert(mounted_resolution(
                            self.repository_root@,
                            self.mounts@[k as int].source.comps(),
                            requested.comps().skip(self.mounts@[k as int].alias.comps().len() as int),
                            rp,
                        ));
                    }
                    return Some(rp);
                },
                None => {},
            }
            k = k + 1;
        }
        None
    }

    /// Where `requested` lives on disk: under a plugin's output when it
    /// lies under the plugin's mount, otherwise in the repository unless
    /// it is reserved.
    pub fn resolve_path(&self, requested: &WorkspacePath) -> (r: Result<ResolvedPath, RepositoryError>)
        ensures
            match r {
                Err(e) => e == RepositoryError::ReservedPath && (forall|k: int|
                    0 <= k < self.mounts@.len() ==> !components_start_with(
                        requested.comps(),
                        (#[trigger] self.mounts@[k]).alias.comps(),
                    )) && crate::settings::uses_reserved(
                    requested.comps(),
                    path_comps(self.reserved_paths@),
                ),
                Ok(rp) => (exists|k: int|
                    0 <= k < self.mounts@.len() && components_start_with(
                        requested.comps(),
                        (#[trigger] self.mounts@[k]).alias.comps(),
                    ) && (forall|j: int|
                        0 <= j < k ==> !components_start_with(
                            requested.comps(),
                            self.mounts@[j].alias.comps(),
                        )) && mounted_resolution(
                        self.repository_root@,
                        self.mounts@[k].source.comps(),
                        requested.comps().skip(self.mounts@[k].alias.comps().len() as int),
                        rp,
                    )) || ((forall|k: int|
                    0 <= k < self.mounts@.len() ==> !components_start_with(
                        requested.comps(),
                        (#[trigger] self.mounts@[k]).alias.comps(),
                    )) && !crate::settings::uses_reserved(
                    requested.comps(),
                    path_comps(self.reserved_paths@),
                ) && rp.path@ == join_path(self.repository_root@, requested.text()) && texts(
                    rp.relative@,
                ) == requested.comps()),
            },
    {
        match self.resolve_mounted_path(requested) {
            Some(rp) => {
                return Ok(rp);
            },
            None => {},
        }
        if self.is_reserved_path(requested) {
            return Err(RepositoryError::ReservedPath);
        }
        Ok(
            ResolvedPath {
                path: requested.join_to(self.repository_root.as_str()),
                relative: requested.component_list(),
            },
        )
    }
}

/// The paths checked for symbolic links: the root, then the root extended
/// by one more component of `rel` at a time.
pub open spec fn probe_paths(root: Seq<char>, rel: Seq<Seq<char>>) -> Seq<Seq<char>>
    decreases rel.len(),
{
    if rel.len() == 0 {
        seq![root]
    } else {
        let prev = probe_paths(root, rel.drop_last());
        prev.push(join_path(prev.last(), rel.last()))
    }
}

/// The paths to check for symbolic links before touching `rp`.
pub fn symlink_probes(root: &str, rp: &ResolvedPath) -> (r: Vec<String>)
    ensures
        texts(r@) == probe_paths(root@, texts(rp.relative@)),
{
    let mut out: Vec<String> = Vec::new();
    out.push(String::from_str(root));
    let ghost rel = texts(rp.relative@);
    assert(rel.subrange(0, 0) =~= Seq::<Seq<char>>::empty());
    assert(texts(out@) =~= probe_paths(root@, rel.subrange(0, 0)));
    let mut i: usize = 0;
    while i < rp.relative.len()
        invariant
            i <= rp.relative@.len(),
            rel == texts(rp.relative@),
            out@.len() == i + 1,
            texts(out@) == probe_paths(root@, rel.subrange(0, i as int)),
        decreases rp.relative@.len() - i,
    {
        let next = join_text(out[i].as_str(), rp.relative[i].as_str());
        let ghost before = out@;
        out.push(next);
        proof {
            lemma_texts_push(before, next);
            let sub = rel.subrange(0, i + 1);
            assert(sub.drop_last() =~= rel.subrange(0, i as int));
            assert(sub.last() == rp.relative@[i as int]@);
            assert(texts(before).last() == before[i as int]@);
        }
        i = i + 1;
    }
    assert(rel.subrange(0, rel.len() as int) =~= rel);
    out
}

/// What a symbolic-link check found at one path.
#[derive(Debug)]
pub enum ProbeState {
    Symlink,
    Present,
    Missing,
    Failed(String),
}

/// The outcome of the symbolic-link check from the observation `i` on
/// (`i > 0`): a link is refused, a missing path ends the check, and a
/// failed inspection is reported.
pub open spec fn probe_outcome(states: Seq<ProbeState>, i: int) -> Result<(), RepositoryErrorView>
    decreases states.len() - i,
{
    if i < 1 || i >= states.len() {
        Ok(())
    } else {
        match states[i] {
            ProbeState::Symlink => Err(RepositoryErrorView::SymlinkPathNotAllowed),
            ProbeState::Missing => Ok(()),
            ProbeState::Present => probe_outcome(states, i + 1),
            ProbeState::Failed(cause) => Err(
                RepositoryErrorView::Internal("failed to inspect path: "@ + cause@),
            ),
        }
    }
}

/// The outcome of the symbolic-link check given what was observed at each
/// probe path: the root itself must not be a link (a failed inspection of
/// it is ignored), then [`probe_outcome`].
pub open spec fn spec_symlink_verdict(states: Seq<ProbeState>) -> Result<(), RepositoryErrorView> {
    if states.len() > 0 && states[0] is Symlink {
        Err(RepositoryErrorView::SymlinkPathNotAllowed)
    } else {
        probe_outcome(states, 1)
    }
}

/// The check from observation `i` on refuses a link met after present
/// paths only, and passes only when every observation up to the first
/// missing path is a present path.
proof fn lemma_probe_outcome_links(states: Seq<ProbeState>, i: int)
    requires
        1 <= i,
    ensures
        forall|k: int|
            i <= k < states.len() && #[trigger] states[k] is Symlink && (forall|j: int|
                i <= j < k ==> states[j] is Present) ==> probe_outcome(states, i) == Err::<
                (),
                RepositoryErrorView,
            >(RepositoryErrorView::SymlinkPathNotAllowed),
        probe_outcome(states, i) is Ok ==> forall|k: int|
            i <= k < states.len() && (forall|j: int| i <= j < k ==> states[j] is Present) ==> (
            #[trigger] states[k] is Present || states[k] is Missing),
    decreases states.len() - i,
{
    if i < states.len() {
        lemma_probe_outcome_links(states, i + 1);
        assert forall|k: int|
            i <= k < states.len() && #[trigger] states[k] is Symlink && (forall|j: int|
                i <= j < k ==> states[j] is Present) implies probe_outcome(states, i) == Err::<
            (),
            RepositoryErrorView,
        >(RepositoryErrorView::SymlinkPathNotAllowed) by {
            if k > i {
                assert(states[i] is Present);
            }
        }
        if probe_outcome(states, i) is Ok {
            assert forall|k: int|
                i <= k < states.len() && (forall|j: int| i <= j < k ==> states[j] is Present) implies (
            #[trigger] states[k] is Present || states[k] is Missing) by {
                if k > i {
                    assert(states[i] is Present);
                }
            }
        }
    }
}

/// Symbolic links are refused: a root that is a link, or a link on the
/// way after paths that are present, refuses the access; and an access
/// passes only when the root is no link and every path on the way, up to
/// the first one missing, is present.
pub proof fn lemma_symlinks_refused(states: Seq<ProbeState>)
    ensures
        states.len() > 0 && states[0] is Symlink ==> spec_symlink_verdict(states) == Err::<
            (),
            RepositoryErrorView,
        >(RepositoryErrorView::SymlinkPathNotAllowed),
        forall|k: int|
            1 <= k < states.len() && #[trigger] states[k] is Symlink && (forall|j: int|
                1 <= j < k ==> states[j] is Present) ==> spec_symlink_verdict(states) == Err::<
                (),
                RepositoryErrorView,
            >(RepositoryErrorView::SymlinkPathNotAllowed),
        spec_symlink_verdict(states) is Ok ==> (states.len() == 0 || !(states[0] is Symlink))
            && forall|k: int|
            1 <= k < states.len() && (forall|j: int| 1 <= j < k ==> states[j] is Present) ==> (
            #[trigger] states[k] is Present || states[k] is Missing),
{
    lemma_probe_outcome_links(states, 1);
}

/// Decides the symbolic-link check.
pub fn symlink_verdict(states: &Vec<ProbeState>) -> (r: Result<(), RepositoryError>)
    ensures
        match r {
            Ok(()) => spec_symlink_verdict(states@) is Ok,
            Err(e) => spec_symlink_verdict(states@) == Err::<(), RepositoryErrorView>(e@),
        },
{
    if states.len() > 0 {
        match &states[0] {
            ProbeState::Symlink => {
                return Err(RepositoryError::SymlinkPathNotAllowed);
            },
            _ => {},
        }
    }
    let mut i: usize = 1;
    while i < states.len()
        invariant
            1 <= i,
            i <= states@.len() || states@.len() == 0,
            states@.len() > 0 ==> !(states@[0] is Symlink),
            probe_outcome(states@, 1) == probe_outcome(states@, i as int),
        decreases states@.len() - i,
    {
        match &states[i] {
            ProbeState::Symlink => {
                return Err(RepositoryError::SymlinkPathNotAllowed);
            },
            ProbeState::Missing => {
                return Ok(());
            },
            ProbeState::Present => {},
            ProbeState::Failed(cause) => {
                let mut m = String::from_str("failed to inspect path: ");
                m.append(cause.as_str());
                return Err(RepositoryError::Internal(m));
            },
        }
        i = i + 1;
    }
    Ok(())
}

/// The operations of the repository.
#[derive(Debug, Clone, Copy, PartialEq, Eq, Structural)]
pub enum RepositoryOp {
    ListDirectory,
    PathInfo,
    CreateDirectory,
    DeleteDirectory,
    ReadFile,
    CreateFile,
    WriteFile,
    DeleteFile,
}

/// What an operation decides from whether its target exists, is a
/// directory and (for directory deletion) has entries.
pub open spec fn spec_target_verdict(op: RepositoryOp, exists: bool, is_dir: bool, has_entries: bool) -> Result<
    (),
    RepositoryError,
> {
    match op {
        RepositoryOp::ListDirectory => if !exists {
            Err(RepositoryError::DirectoryNotFound)
        } else if !is_dir {
            Err(RepositoryError::NotDirectory)
        } else {
            Ok(())
        },
        RepositoryOp::PathInfo => if !exists {
            Err(RepositoryError::FileNotFound)
        } else {
            Ok(())
        },
        RepositoryOp::CreateDirectory => if exists {
            Err(RepositoryError::DirectoryAlreadyExists)
        } else {
            Ok(())
        },
        RepositoryOp::DeleteDirectory => if !exists {
            Err(RepositoryError::DirectoryNotFound)
        } else if !is_dir {
            Err(RepositoryError::PathIsNotDirectory)
        } else if has_entries {
            Err(RepositoryError::DirectoryNotEmpty)
        } else {
            Ok(())
        },
        RepositoryOp::CreateFile => if exists {
            Err(RepositoryError::FileAlreadyExists)
        } else {
            Ok(())
        },
        _ => if !exists {
            Err(RepositoryError::FileNotFound)
        } else if is_dir {
            Err(RepositoryError::PathIsDirectory)
        } else {
            Ok(())
        },
    }
}

/// What each operation asks of its target. Reading, writing and deleting
/// a file need an existing target that is no directory: a missing one is
/// not found, a directory is refused as one. Creating needs the target to
/// be absent. Listing needs an existing directory; deleting a directory
/// needs an existing, empty one; information needs only that the target
/// exists. Only deleting a directory looks at whether it has entries.
pub proof fn lemma_target_requirements(op: RepositoryOp, exists: bool, is_dir: bool, has_entries: bool)
    ensures
        (op == RepositoryOp::ReadFile || op == RepositoryOp::WriteFile || op == RepositoryOp::DeleteFile)
            ==> {
            &&& !exists ==> spec_target_verdict(op, exists, is_dir, has_entries) == Err::<(), RepositoryError>(
                RepositoryError::FileNotFound,
            )
            &&& exists && is_dir ==> spec_target_verdict(op, exists, is_dir, has_entries) == Err::<
                (),
                RepositoryError,
            >(RepositoryError::PathIsDirectory)
            &&& (spec_target_verdict(op, exists, is_dir, has_entries) is Ok <==> exists && !is_dir)
        },
        op == RepositoryOp::CreateFile ==> (spec_target_verdict(op, exists, is_dir, has_entries) is Ok
            <==> !exists) && (exists ==> spec_target_verdict(op, exists, is_dir, has_entries) == Err::<
            (),
            RepositoryError,
        >(RepositoryError::FileAlreadyExists)),
        op == RepositoryOp::CreateDirectory ==> (spec_target_verdict(op, exists, is_dir, has_entries)
            is Ok <==> !exists) && (exists ==> spec_target_verdict(op, exists, is_dir, has_entries)
            == Err::<(), RepositoryError>(RepositoryError::DirectoryAlreadyExists)),
        op == RepositoryOp::ListDirectory ==> {
            &&& !exists ==> spec_target_verdict(op, exists, is_dir, has_entries) == Err::<(), RepositoryError>(
                RepositoryError::DirectoryNotFound,
            )
            &&& exists && !is_dir ==> spec_target_verdict(op, exists, is_dir, has_entries) == Err::<
                (),
                RepositoryError,
            >(RepositoryError::NotDirectory)
            &&& (spec_target_verdict(op, exists, is_dir, has_entries) is Ok <==> exists && is_dir)
        },
        op == RepositoryOp::DeleteDirectory ==> {
            &&& !exists ==> spec_target_verdict(op, exists, is_dir, has_entries) == Err::<(), RepositoryError>(
                RepositoryError::DirectoryNotFound,
            )
            &&& exists && !is_dir ==> spec_target_verdict(op, exists, is_dir, has_entries) == Err::<
                (),
                RepositoryError,
            >(RepositoryError::PathIsNotDirectory)
            &&& exists && is_dir && has_entries ==> spec_target_verdict(op, exists, is_dir, has_entries)
                == Err::<(), RepositoryError>(RepositoryError::DirectoryNotEmpty)
            &&& (spec_target_verdict(op, exists, is_dir, has_entries) is Ok <==> exists && is_dir
                && !has_entries)
        },
        op == RepositoryOp::PathInfo ==> (spec_target_verdict(op, exists, is_dir, has_entries) is Ok
            <==> exists) && (!exists ==> spec_target_verdict(op, exists, is_dir, has_entries) == Err::<
            (),
            RepositoryError,
        >(RepositoryError::FileNotFound)),
        op != RepositoryOp::DeleteDirectory ==> spec_target_verdict(op, exists, is_dir, has_entries)
            == spec_target_verdict(op, exists, is_dir, !has_entries),
{
}

/// Decides an operation from what its target is.
pub fn target_verdict(op: RepositoryOp, exists: bool, is_dir: bool, has_entries: bool) -> (r: Result<
    (),
    RepositoryError,
>)
    ensures
        r == spec_target_verdict(op, exists, is_dir, has_entries),
{
    match op {
        RepositoryOp::ListDirectory => if !exists {
            Err(RepositoryError::DirectoryNotFound)
        } else if !is_dir {
            Err(RepositoryError::NotDirectory)
        } else {
            Ok(())
        },
        RepositoryOp::PathInfo => if !exists {
            Err(RepositoryError::FileNotFound)
        } else {
            Ok(())
        },
        RepositoryOp::CreateDirectory => if exists {
            Err(RepositoryError::DirectoryAlreadyExists)
        } else {
            Ok(())
        },
        RepositoryOp::DeleteDirectory => if !exists {
            Err(RepositoryError::DirectoryNotFound)
        } else if !is_dir {
            Err(RepositoryError::PathIsNotDirectory)
        } else if has_entries {
            Err(RepositoryError::DirectoryNotEmpty)
        } else {
            Ok(())
        },
        RepositoryOp::CreateFile => if exists {
            Err(RepositoryError::FileAlreadyExists)
        } else {
            Ok(())
        },
        _ => if !exists {
            Err(RepositoryError::FileNotFound)
        } else if is_dir {
            Err(RepositoryError::PathIsDirectory)
        } else {
            Ok(())
        },
    }
}

/// The parent of a resolved path (one component up), or none when the
/// path is the repository root itself, whose parent lies outside it.
pub fn parent_of(rp: &ResolvedPath, root: &str) -> (r: Option<ResolvedPath>)
    ensures
        match r {
            None => rp.relative@.len() == 0,
            Some(p) => rp.relative@.len() > 0 && texts(p.relative@) == texts(rp.relative@).drop_last()
                && p.path@ == probe_paths(root@, texts(rp.relative@).drop_last()).last(),
        },
{
    if rp.relative.len() == 0 {
        return None;
    }
    let mut rel: Vec<String> = Vec::new();
    let mut i: usize = 0;
    let n = rp.relative.len() - 1;
    while i < n
        invariant
            n + 1 == rp.relative@.len(),
            i <= n,
            texts(rel@) == texts(rp.relative@).subrange(0, i as int),
        decreases n - i,
    {
        let ghost before = rel@;
        rel.push(rp.relative[i].clone());
        proof {
            lemma_texts_push(before, rp.relative@[i as int]);
            assert(texts(rp.relative@).subrange(0, i + 1) =~= texts(rp.relative@).subrange(
                0,
                i as int,
            ).push(rp.relative@[i as int]@));
        }
        i = i + 1;
    }
    assert(texts(rp.relative@).subrange(0, n as int) =~= texts(rp.relative@).drop_last());
    let probe = ResolvedPath { path: String::new(), relative: rel };
    let probes = symlink_probes(root, &probe);
    let ghost pp = probe_paths(root@, texts(rel@));
    assert(probes@.len() > 0) by {
        lemma_probe_len(root@, texts(rel@));
    }
    let path = probes[probes.len() - 1].clone();
    assert(path@ == pp.last()) by {
        assert(texts(probes@)[probes@.len() - 1] == probes@[probes@.len() - 1]@);
    }
    Some(ResolvedPath { path, relative: probe.relative })
}

/// There is one probe path per component, and the root.
pub proof fn lemma_probe_len(root: Seq<char>, rel: Seq<Seq<char>>)
    ensures
        probe_paths(root, rel).len() == rel.len() + 1,
    decreases rel.len(),
{
    if rel.len() > 0 {
        lemma_probe_len(root, rel.drop_last());
    }
}

/// What the check of a parent directory decides: it must exist, be
/// inspectable and be a directory.
pub open spec fn spec_parent_verdict(exists: bool, inspected: Result<bool, String>) -> Result<
    (),
    RepositoryErrorView,
> {
    if !exists {
        Err(RepositoryErrorView::ParentDirectoryNotFound)
    } else {
        match inspected {
            Err(cause) => Err(
                RepositoryErrorView::Internal("failed to inspect parent directory: "@ + cause@),
            ),
            Ok(is_dir) => if !is_dir {
                Err(RepositoryErrorView::ParentPathNotDirectory)
            } else {
                Ok(())
            },
        }
    }
}

/// A new entry needs an existing parent directory: a missing parent is
/// not found, a parent that is no directory is refused as such, and only
/// an existing directory lets the operation go on.
pub proof fn lemma_parent_requirements(exists: bool, inspected: Result<bool, String>)
    ensures
        !exists ==> spec_parent_verdict(exists, inspected) == Err::<(), RepositoryErrorView>(
            RepositoryErrorView::ParentDirectoryNotFound,
        ),
        exists && inspected == Ok::<bool, String>(false) ==> spec_parent_verdict(exists, inspected)
            == Err::<(), RepositoryErrorView>(RepositoryErrorView::ParentPathNotDirectory),
        spec_parent_verdict(exists, inspected) is Ok <==> exists && inspected == Ok::<bool, String>(
            true,
        ),
{
}

/// Decides the check of a parent directory from whether it exists and
/// whether inspecting it found a directory (or failed with a cause).
pub fn parent_verdict(exists: bool, inspected: &Result<bool, String>) -> (r: Result<(), RepositoryError>)
    ensures
        match r {
            Ok(()) => spec_parent_verdict(exists, *inspected) is Ok,
            Err(e) => spec_parent_verdict(exists, *inspected) == Err::<(), RepositoryErrorView>(e@),
        },
{
    if !exists {
        return Err(RepositoryError::ParentDirectoryNotFound);
    }
    match inspected {
        Err(cause) => {
            let mut m = String::from_str("failed to inspect parent directory: ");
            m.append(cause.as_str());
            Err(RepositoryError::Internal(m))
        },
        Ok(is_dir) => if !*is_dir {
            Err(RepositoryError::ParentPathNotDirectory)
        } else {
            Ok(())
        },
    }
}

/// What reading one directory entry found.
#[derive(Debug)]
pub enum EntryState {
    /// Reading the entry failed with this cause.
    EntryFailed(String),
    /// The entry's path is not UTF-8.
    NonUtf8,
    /// Inspecting the entry failed with this cause.
    InspectFailed(String),
    Symlink,
    /// The entry's path has no final name.
    NoName,
    Named { name: String, is_dir: bool },
}

/// The listing text of one entry: its name, with `/` after a directory.
pub open spec fn entry_outcome(e: EntryState) -> Result<Seq<char>, RepositoryErrorView> {
    match e {
        EntryState::EntryFailed(c) => Err(
            RepositoryErrorView::Internal("failed to read directory entry: "@ + c@),
        ),
        EntryState::NonUtf8 => Err(RepositoryErrorView::NonUtf8Path),
        EntryState::InspectFailed(c) => Err(
            RepositoryErrorView::Internal("failed to inspect directory entry: "@ + c@),
        ),
        EntryState::Symlink => Err(RepositoryErrorView::SymlinkPathNotAllowed),
        EntryState::NoName => Err(RepositoryErrorView::InvalidDirectoryEntry),
        EntryState::Named { name, is_dir } => Ok(
            if is_dir {
                name@ + seq!['/']
            } else {
                name@
            },
        ),
    }
}

/// The listing texts of `entries[..i]`, or the first error among them.
pub open spec fn listing(entries: Seq<EntryState>, i: int) -> Result<Seq<Seq<char>>, RepositoryErrorView>
    decreases i,
{
    if i <= 0 {
        Ok(Seq::empty())
    } else {
        match listing(entries, i - 1) {
            Err(e) => Err(e),
            Ok(names) => match entry_outcome(entries[i - 1]) {
                Err(e) => Err(e),
                Ok(n) => Ok(names.push(n)),
            },
        }
    }
}

/// The listing of entries that all read as names holds each entry's
/// listing text, in reading order; otherwise the listing is the first
/// error, so a symbolic link after entries that read as names refuses the
/// whole listing.
pub proof fn lemma_listing_outcomes(entries: Seq<EntryState>, i: int)
    requires
        0 <= i <= entries.len(),
    ensures
        (forall|k: int| 0 <= k < i ==> entry_outcome(#[trigger] entries[k]) is Ok) ==> (listing(
            entries,
            i,
        ) matches Ok(names) && names.len() == i && forall|k: int|
            0 <= k < i ==> #[trigger] names[k] == entry_outcome(entries[k])->Ok_0),
        forall|k: int|
            0 <= k < i && entry_outcome(#[trigger] entries[k]) is Err && (forall|j: int|
                0 <= j < k ==> entry_outcome(entries[j]) is Ok) ==> listing(entries, i)
                == Err::<Seq<Seq<char>>, RepositoryErrorView>(entry_outcome(entries[k])->Err_0),
    decreases i,
{
    if i > 0 {
        lemma_listing_outcomes(entries, i - 1);
        assert forall|k: int|
            0 <= k < i && entry_outcome(#[trigger] entries[k]) is Err && (forall|j: int|
                0 <= j < k ==> entry_outcome(entries[j]) is Ok) implies listing(entries, i)
            == Err::<Seq<Seq<char>>, RepositoryErrorView>(entry_outcome(entries[k])->Err_0) by {
            if k == i - 1 {
                assert forall|j: int| 0 <= j < i - 1 implies entry_outcome(
                    #[trigger] entries[j],
                ) is Ok by {}
            }
        }
    }
}

/// A symbolic link in a directory whose earlier entries read as names
/// refuses the listing.
pub proof fn lemma_listing_refuses_symlink(entries: Seq<EntryState>, k: int)
    requires
        0 <= k < entries.len(),
        entries[k] is Symlink,
        forall|j: int| 0 <= j < k ==> entry_outcome(#[trigger] entries[j]) is Ok,
    ensures
        listing(entries, entries.len() as int) == Err::<Seq<Seq<char>>, RepositoryErrorView>(
            RepositoryErrorView::SymlinkPathNotAllowed,
        ),
{
    lemma_listing_outcomes(entries, entries.len() as int);
}

/// Whether the texts are in ascending character order.
pub open spec fn texts_sorted(v: Seq<Seq<char>>) -> bool {
    forall|i: int, j: int| 0 <= i < j < v.len() ==> !seq_lt(#[trigger] v[j], #[trigger] v[i])
}

/// Sorts `v` by calling `slice::sort`. The contract claims what the
/// standard library documents: the result is a permutation in ascending
/// order, and `String` orders by bytes, which for UTF-8 text is the order
/// of the characters.
#[verifier::external_body]
fn sort_strings(v: &mut Vec<String>)
    ensures
        texts(final(v)@).to_multiset() == texts(old(v)@).to_multiset(),
        texts_sorted(texts(final(v)@)),
{
    v.sort();
}

proof fn lemma_listing_error_stays(entries: Seq<EntryState>, i: int, n: int)
    requires
        0 < i <= n,
        listing(entries, i) is Err,
    ensures
        listing(entries, n) == listing(entries, i),
    decreases n - i,
{
    if n > i {
        lemma_listing_error_stays(entries, i, n - 1);
    }
}

/// The sorted listing of a directory from what reading its entries
/// found; or the first error, in reading order.
pub fn directory_listing(entries: &Vec<EntryState>) -> (r: Result<Vec<String>, RepositoryError>)
    ensures
        match r {
            Ok(v) => listing(entries@, entries@.len() as int) matches Ok(names) && texts(
                v@,
            ).to_multiset() == names.to_multiset() && texts_sorted(texts(v@)),
            Err(e) => listing(entries@, entries@.len() as int) == Err::<
                Seq<Seq<char>>,
                RepositoryErrorView,
            >(e@),
        },
{
    let mut out: Vec<String> = Vec::new();
    let mut i: usize = 0;
    assert(texts(out@) =~= Seq::<Seq<char>>::empty());
    while i < entries.len()
        invariant
            i <= entries@.len(),
            listing(entries@, i as int) == Ok::<Seq<Seq<char>>, RepositoryErrorView>(texts(out@)),
        decreases entries@.len() - i,
    {
        let text = match &entries[i] {
            EntryState::EntryFailed(c) => {
                let mut m = String::from_str("failed to read directory entry: ");
                m.append(c.as_str());
                Err(RepositoryError::Internal(m))
            },
            EntryState::NonUtf8 => Err(RepositoryError::NonUtf8Path),
            EntryState::InspectFailed(c) => {
                let mut m = String::from_str("failed to inspect directory entry: ");
                m.append(c.as_str());
                Err(RepositoryError::Internal(m))
            },
            EntryState::Symlink => Err(RepositoryError::SymlinkPathNotAllowed),
            EntryState::NoName => Err(RepositoryError::InvalidDirectoryEntry),
            EntryState::Named { name, is_dir } => {
                let mut t = name.clone();
                if *is_dir {
                    crate::text::append_str(&mut t, "/");
                    proof {
                        reveal_strlit("/");
                    }
                }
                Ok(t)
            },
        };
        match text {
            Err(e) => {
                proof {
                    lemma_listing_error_stays(entries@, i + 1, entries@.len() as int);
                }
                return Err(e);
            },
            Ok(t) => {
                assert(t@ == entry_outcome(entries@[i as int])->Ok_0);
                let ghost before = out@;
                out.push(t);
                proof {
                    lemma_texts_push(before, t);
                }
            },
        }
        i = i + 1;
    }
    sort_strings(&mut out);
    Ok(out)
}

} // verus!
