//! The pure planning side of the installation orchestrator. Deciding what an
//! install request must do (no-op, fail, or proceed with a resolved
//! dependency list), what a removal must do, which archive format an artifact
//! name announces, where an artifact or the repository index is fetched from,
//! and the per-package transaction's stage chain
//! (fetch, verify, extract, record). Fetching, extraction and persistence
//! themselves are the caller's business.

use vstd::prelude::*;

use crate::db::Database;
use crate::db::InstalledPackage;
use crate::db::PackageInfo;
use crate::error::Error;
use crate::resolve::seq_has_name;
use crate::text::has_suffix;

verus! {

/// What an install request must do.
pub enum InstallPlan {
    /// The package is already installed and the request is not forced:
    /// succeed at once as a no-op, reporting the installed version.
    AlreadyInstalled { name: String, version: String },
    /// Install `deps` in order, then the target package itself.
    Proceed { pkg: PackageInfo, deps: Vec<String> },
}

impl Database {
    /// `ds` is a valid install plan for the package named `target`: every
    /// entry names a known, not yet installed package, no entry twice, never
    /// the target, dependencies strictly before their dependents, and every
    /// dependency of the target that needs installing is listed.
    pub open spec fn valid_plan(self, target: Seq<char>, ds: Seq<String>) -> bool {
        &&& forall|i: int| 0 <= i < ds.len() ==> self.needs_install((#[trigger] ds[i])@)
        &&& forall|i: int, j: int|
            0 <= i < j < ds.len() ==> (#[trigger] ds[i])@ != (#[trigger] ds[j])@
        &&& forall|i: int| 0 <= i < ds.len() ==> (#[trigger] ds[i])@ != target
        &&& self.install_ordered(ds)
        &&& forall|k: int|
            0 <= k < self.pkg_of(target).depends.len() && self.needs_install(
                #[trigger] self.pkg_of(target).depends[k],
            ) ==> seq_has_name(ds, self.pkg_of(target).depends[k])
    }

    /// Decide an install request: a no-op when the package is installed and
    /// `force` is off; `NotFound` when the snapshot does not know the name;
    /// otherwise the target's metadata with a valid ordered dependency plan,
    /// or `CycleDetected` naming a genuine dependency cycle.
    pub fn plan_install(&self, name: &str, force: bool) -> (r: Result<InstallPlan, Error>)
        requires
            self.wf(),
        ensures
            !force && self.has_inst(name@) ==> (r matches Ok(
                InstallPlan::AlreadyInstalled { name: n, version },
            ) && n@ == name@ && version@ == self.inst_of(name@).version),
            (force || !self.has_inst(name@)) && !self.has_pkg(name@) ==> (r matches Err(
                Error::NotFound { name: n },
            ) && n@ == name@),
            (force || !self.has_inst(name@)) && self.has_pkg(name@) ==> match r {
                Ok(plan) => plan matches InstallPlan::Proceed { pkg, deps } && pkg@ == self.pkg_of(
                    name@,
                ) && self.valid_plan(name@, deps@),
                Err(e) => e matches Error::CycleDetected { cycle } && self.genuine_cycle(cycle@),
            },
    {
        if !force {
            if let Some(inst) = self.get_installed(name) {
                return Ok(
                    InstallPlan::AlreadyInstalled {
                        name: name.to_owned(),
                        version: inst.version.clone(),
                    },
                );
            }
        }
        let pkg = self.find_package(name)?;
        proof {
            let pi = self.pkg_idx(name@);
            assert(self.packages@[pi].name@ == name@);
            assert(pkg.name@ == name@);
        }
        match self.resolve_deps(&pkg) {
            Ok(deps) => {
                proof {
                    assert forall|k: int|
                        0 <= k < self.pkg_of(name@).depends.len() && self.needs_install(
                            #[trigger] self.pkg_of(name@).depends[k],
                        ) implies seq_has_name(deps@, self.pkg_of(name@).depends[k]) by {
                        assert(pkg@.depends[k] == pkg.depends@[k]@);
                    }
                    assert(self.valid_plan(name@, deps@));
                }
                Ok(InstallPlan::Proceed { pkg, deps })
            },
            Err(e) => Err(e),
        }
    }

    /// Decide a removal: the record to remove (whose file list drives the
    /// deletions) when the package is installed, `NotInstalled` when not.
    pub fn plan_remove(&self, name: &str) -> (r: Result<InstalledPackage, Error>)
        requires
            self.wf(),
        ensures
            match r {
                Ok(rec) => self.has_inst(name@) && rec@ == self.inst_of(name@),
                Err(e) => !self.has_inst(name@) && (e matches Error::NotInstalled { name: n } && n@
                    == name@),
            },
    {
        match self.get_installed(name) {
            Some(rec) => Ok(rec.clone()),
            None => Err(Error::NotInstalled { name: name.to_owned() }),
        }
    }
}

/// The archive format an artifact's filename announces.
pub enum ArchiveKind {
    TarZst,
    TarGz,
    TarXz,
    Unknown,
}

/// Recognize the archive format from the artifact filename's suffix, in the
/// extractor's order of preference: `.tar.zst`, then `.tar.gz` or `.tgz`,
/// then `.tar.xz`, and `Unknown` for anything else (which the extractor must
/// refuse with `UnknownFormat`).
pub fn archive_format(filename: &str) -> (r: ArchiveKind)
    ensures
        r is TarZst <==> has_suffix(filename@, ".tar.zst"@),
        r is TarGz <==> !has_suffix(filename@, ".tar.zst"@) && (has_suffix(filename@, ".tar.gz"@)
            || has_suffix(filename@, ".tgz"@)),
        r is TarXz <==> !has_suffix(filename@, ".tar.zst"@) && !has_suffix(filename@, ".tar.gz"@)
            && !has_suffix(filename@, ".tgz"@) && has_suffix(filename@, ".tar.xz"@),
        r is Unknown <==> !has_suffix(filename@, ".tar.zst"@) && !has_suffix(filename@, ".tar.gz"@)
            && !has_suffix(filename@, ".tgz"@) && !has_suffix(filename@, ".tar.xz"@),
{
    if crate::text::str_ends_with(filename, ".tar.zst") {
        ArchiveKind::TarZst
    } else if crate::text::str_ends_with(filename, ".tar.gz") || crate::text::str_ends_with(
        filename,
        ".tgz",
    ) {
        ArchiveKind::TarGz
    } else if crate::text::str_ends_with(filename, ".tar.xz") {
        ArchiveKind::TarXz
    } else {
        ArchiveKind::Unknown
    }
}

/// The URL an artifact is fetched from: the repository URL, a
/// version-qualified release directory, and the artifact filename.
pub fn package_url(repo_url: &str, pkg: &PackageInfo) -> (r: String)
    ensures
        r@ == repo_url@ + "/v"@ + pkg.version@ + "/"@ + pkg.filename@,
{
    let mut url: String = repo_url.to_owned();
    url.append("/v");
    url.append(pkg.version.as_str());
    url.append("/");
    url.append(pkg.filename.as_str());
    url
}

/// The URL the repository index is synced from.
pub fn sync_url(repo_url: &str) -> (r: String)
    ensures
        r@ == repo_url@ + "/latest/repo.json"@,
{
    let mut url: String = repo_url.to_owned();
    url.append("/latest/repo.json");
    url
}

/// The candidate Portfile paths for a package, one per ports category, in
/// the order they are probed.
pub fn portfile_candidates(ports_dir: &str, name: &str) -> (r: Vec<String>)
    ensures
        r@.len() == 5,
        forall|i: int|
            0 <= i < 5 ==> (#[trigger] r@[i])@ == ports_dir@ + "/"@ + portfile_category(i) + "/"@
                + name@ + "/Portfile"@,
{
    let mut out: Vec<String> = Vec::new();
    for i in 0..5usize
        invariant
            out@.len() == i,
            forall|j: int|
                0 <= j < i ==> (#[trigger] out@[j])@ == ports_dir@ + "/"@ + portfile_category(j)
                    + "/"@ + name@ + "/Portfile"@,
    {
        let cat: &str = if i == 0 {
            "core"
        } else if i == 1 {
            "lib"
        } else if i == 2 {
            "devel"
        } else if i == 3 {
            "net"
        } else {
            "extra"
        };
        proof {
            assert(cat@ == portfile_category(i as int));
        }
        let mut p: String = ports_dir.to_owned();
        p.append("/");
        p.append(cat);
        p.append("/");
        p.append(name);
        p.append("/Portfile");
        out.push(p);
    }
    out
}

/// The ports category probed at position `i`.
pub open spec fn portfile_category(i: int) -> Seq<char> {
    if i == 0 {
        "core"@
    } else if i == 1 {
        "lib"@
    } else if i == 2 {
        "devel"@
    } else if i == 3 {
        "net"@
    } else {
        "extra"@
    }
}

/// The stages one package's install transaction passes through, in order;
/// `Failed` is terminal.
pub enum InstallStage {
    Requested,
    Checked,
    Resolved,
    FetchedDeps,
    Fetched,
    Verified,
    Extracted,
    Recorded,
    Failed,
}

/// The stage that follows `s` when its step succeeds.
pub open spec fn next_stage(s: InstallStage) -> InstallStage {
    match s {
        InstallStage::Requested => InstallStage::Checked,
        InstallStage::Checked => InstallStage::Resolved,
        InstallStage::Resolved => InstallStage::FetchedDeps,
        InstallStage::FetchedDeps => InstallStage::Fetched,
        InstallStage::Fetched => InstallStage::Verified,
        InstallStage::Verified => InstallStage::Extracted,
        InstallStage::Extracted => InstallStage::Recorded,
        InstallStage::Recorded => InstallStage::Recorded,
        InstallStage::Failed => InstallStage::Failed,
    }
}

/// Advance the transaction by one step: on success the next stage of the
/// chain, on failure the terminal `Failed`; the terminal stages stay put. In
/// particular the root filesystem is only ever touched from `Verified`: the
/// step reaches `Extracted` exactly by succeeding there, so a checksum
/// mismatch (which fails at `Fetched → Verified`) forecloses extraction.
pub fn advance(s: InstallStage, ok: bool) -> (r: InstallStage)
    ensures
        s is Recorded || s is Failed ==> r == s,
        !(s is Recorded) && !(s is Failed) && ok ==> r == next_stage(s),
        !(s is Recorded) && !(s is Failed) && !ok ==> r is Failed,
        r is Extracted ==> ok && s is Verified,
{
    match s {
        InstallStage::Recorded => InstallStage::Recorded,
        InstallStage::Failed => InstallStage::Failed,
        _ => {
            if !ok {
                InstallStage::Failed
            } else {
                match s {
                    InstallStage::Requested => InstallStage::Checked,
                    InstallStage::Checked => InstallStage::Resolved,
                    InstallStage::Resolved => InstallStage::FetchedDeps,
                    InstallStage::FetchedDeps => InstallStage::Fetched,
                    InstallStage::Fetched => InstallStage::Verified,
                    InstallStage::Verified => InstallStage::Extracted,
                    InstallStage::Extracted => InstallStage::Recorded,
                    InstallStage::Recorded => InstallStage::Recorded,
                    InstallStage::Failed => InstallStage::Failed,
                }
            }
        },
    }
}

} // verus!
