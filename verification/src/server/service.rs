//! The decisions of the workspace service: which requested paths a user
//! may act on, what a listing shows, and who may run a plugin.
use vstd::prelude::*;

use crate::info::PathInfoKind;
use crate::path::{components_start_with, spec_from_path_str, spec_from_url, PathError, WorkspacePath};
use crate::policy::{is_selected, lemma_selection_unique, MethodKind};
use crate::server::config::RepositoryConfig;
use crate::server::http::HttpError;
use crate::server::identity::UserIdentity;
use crate::server::policy::{resolve_policy, rule_paths};
use crate::server::repository::FsRepository;
use crate::text::{contains_text, same_text, texts};

verus! {

/// The service answering requests on one repository.
#[derive(Debug)]
pub struct WorkspaceService {
    pub repository: FsRepository,
    pub config: RepositoryConfig,
}

/// Whether `path` is hidden by the ignored path `ignored`: it is that path
/// or lies under it.
pub open spec fn hidden_by(path: WorkspacePath, ignored: WorkspacePath) -> bool {
    path.text() == ignored.text() || components_start_with(path.comps(), ignored.comps())
}

/// Whether `path` is hidden by one of `ignored`.
pub open spec fn is_ignored(path: WorkspacePath, ignored: Seq<WorkspacePath>) -> bool {
    exists|k: int| 0 <= k < ignored.len() && hidden_by(path, #[trigger] ignored[k])
}

/// Whether the rules let `user` perform `method` on `path`: some rule
/// matches and the selected one lists the user.
pub open spec fn policy_allows(c: RepositoryConfig, method: MethodKind, path: WorkspacePath, user: Seq<char>) -> bool {
    exists|k: int|
        is_selected(rule_paths(c.policy@), path, k) && c.policy@[k].permissions.allowed(
            method,
        ).contains(user)
}

/// The text of the child `entry` of `directory`: the entry itself under
/// the root, otherwise `<directory>/<entry>`.
pub open spec fn child_text(directory: WorkspacePath, entry: Seq<char>) -> Seq<char> {
    if directory.text() == "."@ {
        entry
    } else {
        directory.text() + "/"@ + entry
    }
}

/// The path of the child `entry` of `directory`.
pub fn child_path(directory: &WorkspacePath, entry: &str) -> (r: Result<WorkspacePath, PathError>)
    ensures
        match r {
            Ok(p) => spec_from_path_str(child_text(*directory, entry@)) == Ok::<
                (Seq<Seq<char>>, bool),
                PathError,
            >(p@),
            Err(e) => spec_from_path_str(child_text(*directory, entry@)) == Err::<
                (Seq<Seq<char>>, bool),
                PathError,
            >(e),
        },
{
    if same_text(directory.as_str(), ".") {
        WorkspacePath::from_path_str(entry)
    } else {
        let mut s = String::from_str(directory.as_str());
        s.append("/");
        s.append(entry);
        WorkspacePath::from_path_str(s.as_str())
    }
}

/// A bad request with `message` when `path` names a directory.
pub fn reject_directory_path(path: &WorkspacePath, message: &str) -> (r: Result<(), HttpError>)
    ensures
        match r {
            Ok(()) => !path.dir(),
            Err(e) => path.dir() && e.status == 400 && e.message@ == message@,
        },
{
    if path.is_directory() {
        return Err(HttpError::bad_request(message));
    }
    Ok(())
}

/// Whether a request path's trailing `/` agrees with what the path is:
/// a file must not be asked for as a directory, nor a directory as a
/// file.
pub fn check_path_kind(path: &WorkspacePath, kind: PathInfoKind) -> (r: Result<(), HttpError>)
    ensures
        match r {
            Ok(()) => path.dir() == (kind == PathInfoKind::Directory),
            Err(e) => e.status == 400 && if path.dir() {
                kind == PathInfoKind::File && e.message@ == "file path must not end with /"@
            } else {
                kind == PathInfoKind::Directory && e.message@ == "directory path must end with /"@
            },
        },
{
    match (path.is_directory(), kind) {
        (true, PathInfoKind::File) => Err(HttpError::bad_request("file path must not end with /")),
        (false, PathInfoKind::Directory) => Err(
            HttpError::bad_request("directory path must end with /"),
        ),
        _ => Ok(()),
    }
}

/// The lines of a listing joined with newlines.
pub open spec fn joined_lines(v: Seq<Seq<char>>) -> Seq<char> {
    crate::text::join_with(v, seq!['\n'])
}

/// The body of a directory listing: the entries, one per line.
pub fn join_lines(entries: &Vec<String>) -> (r: String)
    ensures
        r@ == joined_lines(texts(entries@)),
{
    let ghost es = texts(entries@);
    let mut out = String::new();
    let mut i: usize = 0;
    while i < entries.len()
        invariant
            es == texts(entries@),
            i <= entries@.len(),
            out@ == joined_lines(es.subrange(0, i as int)),
        decreases entries@.len() - i,
    {
        let ghost before = out@;
        if i > 0 {
            out.append("\n");
        }
        out.append(entries[i].as_str());
        proof {
            reveal_strlit("\n");
            let sub = es.subrange(0, i + 1);
            assert(sub.drop_last() =~= es.subrange(0, i as int));
            assert(sub.last() == entries@[i as int]@);
            if i == 0 {
                assert(out@ =~= es[0]);
            } else {
                assert(out@ =~= before + seq!['\n'] + es[i as int]);
            }
        }
        i = i + 1;
    }
    assert(es.subrange(0, entries@.len() as int) =~= es);
    out
}

impl WorkspaceService {
    /// The service for `repository` configured by `config`.
    pub fn new(repository: FsRepository, config: RepositoryConfig) -> (r: WorkspaceService)
        ensures
            r.repository == repository,
            r.config == config,
    {
        WorkspaceService { repository, config }
    }

    /// The configured port.
    pub fn serve_port(&self) -> (r: u16)
        ensures
            r == self.config.serve.port,
    {
        self.config.serve.port
    }

    /// The repository root on disk.
    pub fn repository_root(&self) -> (r: &str)
        ensures
            r@ == self.repository.repository_root@,
    {
        self.repository.repository_root.as_str()
    }

    /// The URL prefix of plugin runs.
    pub fn plugin_url_prefix(&self) -> (r: &str)
        ensures
            r@ == self.config.serve.plugin_url_prefix@,
    {
        self.config.serve.plugin_url_prefix.as_str()
    }

    /// The URL prefix of policy inspection.
    pub fn policy_url_prefix(&self) -> (r: &str)
        ensures
            r@ == self.config.serve.policy_url_prefix@,
    {
        self.config.serve.policy_url_prefix.as_str()
    }

    /// The URL prefix of path information.
    pub fn info_url_prefix(&self) -> (r: &str)
        ensures
            r@ == self.config.serve.info_url_prefix@,
    {
        self.config.serve.info_url_prefix.as_str()
    }

    /// The repository path of a URL path, or a bad request.
    pub fn normalize_request_path(&self, url_path: &str) -> (r: Result<WorkspacePath, HttpError>)
        ensures
            match r {
                Ok(p) => spec_from_url(url_path@) == Ok::<(Seq<Seq<char>>, bool), PathError>(p@),
                Err(e) => spec_from_url(url_path@) matches Err(pe) && e.status == 400 && e.message@
                    == pe.spec_message(),
            },
    {
        match WorkspacePath::from_url(url_path) {
            Ok(p) => Ok(p),
            Err(e) => Err(HttpError::from_request_path(&e)),
        }
    }

    /// Whether `path` is hidden by the configuration.
    pub fn is_ignored_path(&self, path: &WorkspacePath) -> (r: bool)
        ensures
            r == is_ignored(*path, self.config.ignore.paths@),
            r == exists|k: int|
                0 <= k < self.config.ignore.paths@.len() && (path.text()
                    == (#[trigger] self.config.ignore.paths@[k]).text() || components_start_with(
                    path.comps(),
                    self.config.ignore.paths@[k].comps(),
                )),
    {
        let ignored = &self.config.ignore.paths;
        let mut k: usize = 0;
        while k < ignored.len()
            invariant
                *ignored == self.config.ignore.paths,
                k <= ignored@.len(),
                forall|j: int| 0 <= j < k ==> !hidden_by(*path, #[trigger] ignored@[j]),
            decreases ignored@.len() - k,
        {
            if same_text(path.as_str(), ignored[k].as_str()) || path.starts_with(&ignored[k]) {
                assert(hidden_by(*path, ignored@[k as int]));
                return true;
            }
            k = k + 1;
        }
        false
    }

    /// Refuses a hidden path.
    pub fn enforce_not_ignored(&self, path: &WorkspacePath) -> (r: Result<(), HttpError>)
        ensures
            match r {
                Ok(()) => !is_ignored(*path, self.config.ignore.paths@),
                Err(e) => is_ignored(*path, self.config.ignore.paths@) && e.status == 403
                    && e.message@ == "path ignored by config"@,
            },
    {
        if self.is_ignored_path(path) {
            Err(HttpError::forbidden("path ignored by config"))
        } else {
            Ok(())
        }
    }

    /// Refuses what the rules do not allow.
    pub fn enforce_policy(&self, method: MethodKind, path: &WorkspacePath, user: &UserIdentity) -> (r:
        Result<(), HttpError>)
        ensures
            match r {
                Ok(()) => policy_allows(self.config, method, *path, user@),
                Err(e) => !policy_allows(self.config, method, *path, user@) && e.status == 403
                    && e.message@ == "operation denied by policy"@,
            },
    {
        let allowed = match resolve_policy(method, &self.config.policy, path, user) {
            Some(a) => a,
            None => false,
        };
        proof {
            lemma_selection_unique(rule_paths(self.config.policy@), *path);
        }
        if allowed {
            Ok(())
        } else {
            Err(HttpError::forbidden("operation denied by policy"))
        }
    }

    /// The repository path of `url_path`, once it is known to be valid,
    /// not hidden and allowed to `user` for `method`.
    pub fn authorized_path(&self, url_path: &str, method: MethodKind, user: &UserIdentity) -> (r: Result<
        WorkspacePath,
        HttpError,
    >)
        ensures
            match r {
                Ok(p) => spec_from_url(url_path@) == Ok::<(Seq<Seq<char>>, bool), PathError>(p@)
                    && !is_ignored(p, self.config.ignore.paths@) && policy_allows(
                    self.config,
                    method,
                    p,
                    user@,
                ) && forall|k: int|
                    0 <= k < self.config.ignore.paths@.len() ==> p.text()
                        != (#[trigger] self.config.ignore.paths@[k]).text() && !components_start_with(
                        p.comps(),
                        self.config.ignore.paths@[k].comps(),
                    ),
                Err(e) => match spec_from_url(url_path@) {
                    Err(pe) => e.status == 400 && e.message@ == pe.spec_message(),
                    Ok(q) => e.status == 403 && forall|p: WorkspacePath| #[trigger] p@ == q ==> if is_ignored(
                        p,
                        self.config.ignore.paths@,
                    ) {
                        e.message@ == "path ignored by config"@
                    } else {
                        !policy_allows(self.config, method, p, user@) && e.message@
                            == "operation denied by policy"@
                    },
                },
            },
    {
        let path = match self.normalize_request_path(url_path) {
            Ok(p) => p,
            Err(e) => {
                return Err(e);
            },
        };
        match self.enforce_not_ignored(&path) {
            Ok(()) => {},
            Err(e) => {
                proof {
                    assert forall|p: WorkspacePath| #[trigger] p@ == path@ implies is_ignored(
                        p,
                        self.config.ignore.paths@,
                    ) by {
                        lemma_ignored_by_view(p, self.config.ignore.paths@);
                        lemma_ignored_by_view(path, self.config.ignore.paths@);
                    }
                }
                return Err(e);
            },
        }
        match self.enforce_policy(method, &path, user) {
            Ok(()) => {},
            Err(e) => {
                proof {
                    assert forall|p: WorkspacePath| #[trigger] p@ == path@ implies !is_ignored(
                        p,
                        self.config.ignore.paths@,
                    ) && !policy_allows(self.config, method, p, user@) by {
                        lemma_ignored_by_view(p, self.config.ignore.paths@);
                        lemma_ignored_by_view(path, self.config.ignore.paths@);
                        lemma_policy_by_view(self.config, method, p, path, user@);
                    }
                }
                return Err(e);
            },
        }
        proof {
            assert forall|k: int| 0 <= k < self.config.ignore.paths@.len() implies path.text()
                != (#[trigger] self.config.ignore.paths@[k]).text() && !components_start_with(
                path.comps(),
                self.config.ignore.paths@[k].comps(),
            ) by {
                if path.text() == self.config.ignore.paths@[k].text() || components_start_with(
                    path.comps(),
                    self.config.ignore.paths@[k].comps(),
                ) {
                    lemma_under_ignored_is_ignored(path, self.config.ignore.paths@, k);
                }
            }
        }
        Ok(path)
    }

    /// The entries of `directory` that are not hidden, in order; an entry
    /// that is no valid child path is an internal error.
    pub fn filter_ignored_entries(&self, directory: &WorkspacePath, entries: Vec<String>) -> (r: Result<
        Vec<String>,
        HttpError,
    >)
        ensures
            match r {
                Ok(kept) => (forall|i: int|
                    0 <= i < entries@.len() ==> spec_from_path_str(
                        child_text(*directory, #[trigger] entries@[i]@),
                    ) is Ok) && kept@ == entries@.filter(
                    |e: String| keep_entry(*directory, self.config.ignore.paths@, e),
                ),
                Err(e) => e.status == 500 && exists|i: int|
                    0 <= i < entries@.len() && (forall|k: int|
                        0 <= k < i ==> spec_from_path_str(child_text(*directory, entries@[k]@))
                            is Ok) && (spec_from_path_str(
                        child_text(*directory, #[trigger] entries@[i]@),
                    ) matches Err(pe) && e.message@ == pe.spec_message()),
            },
    {
        let mut kept: Vec<String> = Vec::new();
        let mut i: usize = 0;
        let ghost pred = |e: String| keep_entry(*directory, self.config.ignore.paths@, e);
        while i < entries.len()
            invariant
                i <= entries@.len(),
                forall|k: int|
                    0 <= k < i ==> spec_from_path_str(child_text(*directory, #[trigger] entries@[k]@))
                        is Ok,
                pred == (|e: String| keep_entry(*directory, self.config.ignore.paths@, e)),
                kept@ == entries@.subrange(0, i as int).filter(pred),
            decreases entries@.len() - i,
        {
            let child = match child_path(directory, entries[i].as_str()) {
                Ok(c) => c,
                Err(e) => {
                    let m = e.message();
                    return Err(HttpError::internal(m.as_str()));
                },
            };
            let hidden = self.is_ignored_path(&child);
            proof {
                lemma_ignored_by_view(child, self.config.ignore.paths@);
                let sub = entries@.subrange(0, i + 1);
                assert(sub =~= entries@.subrange(0, i as int).push(entries@[i as int]));
                entries@.subrange(0, i as int).lemma_filter_push(entries@[i as int], pred);
                assert(child@ == spec_from_path_str(child_text(*directory, entries@[i as int]@))->Ok_0);
                assert(pred(entries@[i as int]) == !hidden);
            }
            if !hidden {
                kept.push(entries[i].clone());
            }
            i = i + 1;
        }
        assert(entries@.subrange(0, entries@.len() as int) =~= entries@);
        Ok(kept)
    }

    /// Whether `user` may run the plugin `plugin_name`: the index of the
    /// first plugin with that name, when its `allow` list holds the user.
    pub fn authorize_plugin_run(&self, plugin_name: &str, user: &UserIdentity) -> (r: Result<
        usize,
        HttpError,
    >)
        ensures
            match r {
                Ok(k) => k < self.config.plugin@.len() && self.config.plugin@[k as int].name@
                    == plugin_name@ && (forall|j: int|
                    0 <= j < k ==> self.config.plugin@[j].name@ != plugin_name@) && texts(
                    self.config.plugin@[k as int].allow@,
                ).contains(user@),
                Err(e) => ((forall|j: int|
                    0 <= j < self.config.plugin@.len() ==> self.config.plugin@[j].name@
                        != plugin_name@) && e.status == 404 && e.message@ == "plugin not found"@)
                    || (exists|k: int|
                    0 <= k < self.config.plugin@.len() && self.config.plugin@[k].name@ == plugin_name@
                        && (forall|j: int| 0 <= j < k ==> self.config.plugin@[j].name@ != plugin_name@)
                        && !texts(self.config.plugin@[k].allow@).contains(user@)) && e.status == 403
                    && e.message@ == "plugin execution denied"@,
            },
    {
        let k = match self.config.find_plugin_index(plugin_name) {
            Some(k) => k,
            None => {
                return Err(HttpError::not_found("plugin not found"));
            },
        };
        if !contains_text(&self.config.plugin[k].allow, user.as_str()) {
            return Err(HttpError::forbidden("plugin execution denied"));
        }
        Ok(k)
    }
}

/// Whether a listing keeps `entry` of `directory`: its path is not hidden.
pub open spec fn keep_entry(directory: WorkspacePath, ignored: Seq<WorkspacePath>, entry: String) -> bool {
    !is_ignored_text(spec_from_path_str(child_text(directory, entry@))->Ok_0, ignored)
}

/// Whether the path denoted by `p` is hidden by one of `ignored`.
pub open spec fn is_ignored_text(p: (Seq<Seq<char>>, bool), ignored: Seq<WorkspacePath>) -> bool {
    exists|k: int|
        0 <= k < ignored.len() && (crate::path::components_text(p.0) == (#[trigger] ignored[k]).text()
            || components_start_with(p.0, ignored[k].comps()))
}

/// A listing drops exactly the entries whose path is an ignored path or
/// lies under one.
pub proof fn lemma_listing_hides_ignored(directory: WorkspacePath, ignored: Seq<WorkspacePath>, entry: String)
    requires
        spec_from_path_str(child_text(directory, entry@)) is Ok,
    ensures
        ({
            let q = spec_from_path_str(child_text(directory, entry@))->Ok_0.0;
            !keep_entry(directory, ignored, entry) <==> exists|k: int|
                0 <= k < ignored.len() && (crate::path::components_text(q) == (
                #[trigger] ignored[k]).text() || components_start_with(q, ignored[k].comps()))
        }),
{
}

/// A path that is an ignored path, or lies under one, is ignored.
pub proof fn lemma_under_ignored_is_ignored(p: WorkspacePath, ignored: Seq<WorkspacePath>, k: int)
    requires
        0 <= k < ignored.len(),
        p.text() == ignored[k].text() || components_start_with(p.comps(), ignored[k].comps()),
    ensures
        is_ignored(p, ignored),
{
    assert(hidden_by(p, ignored[k]));
}

/// Whether the rules allow a path depends only on what the path denotes.
proof fn lemma_policy_by_view(
    c: RepositoryConfig,
    method: MethodKind,
    a: WorkspacePath,
    b: WorkspacePath,
    user: Seq<char>,
)
    requires
        a@ == b@,
    ensures
        policy_allows(c, method, a, user) == policy_allows(c, method, b, user),
{
    let rules = rule_paths(c.policy@);
    assert forall|j: int| 0 <= j < rules.len() implies crate::policy::rule_matches(
        #[trigger] rules[j],
        a,
    ) == crate::policy::rule_matches(rules[j], b) by {}
    assert forall|k: int| is_selected(rules, a, k) == is_selected(rules, b, k) by {}
}

proof fn lemma_ignored_by_view(path: WorkspacePath, ignored: Seq<WorkspacePath>)
    ensures
        is_ignored(path, ignored) == is_ignored_text(path@, ignored),
{
    if is_ignored(path, ignored) {
        let k = choose|k: int| 0 <= k < ignored.len() && hidden_by(path, #[trigger] ignored[k]);
        assert(0 <= k < ignored.len() && (crate::path::components_text(path@.0) == ignored[k].text()
            || components_start_with(path@.0, ignored[k].comps())));
    }
    if is_ignored_text(path@, ignored) {
        let k = choose|k: int|
            0 <= k < ignored.len() && (crate::path::components_text(path@.0) == (
            #[trigger] ignored[k]).text() || components_start_with(path@.0, ignored[k].comps()));
        assert(hidden_by(path, ignored[k]));
    }
}

} // verus!
