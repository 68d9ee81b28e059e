//! The package database: the repository snapshot (name to package metadata)
//! and the installed set (name to installation record). It is the single
//! source of truth for "is X installed" and "what version of X is available".
//! Both mappings are kept as sequences of records with pairwise-distinct
//! names; `from_parts` rejects a snapshot or installed set that holds two
//! entries with one name.

use vstd::prelude::*;

use crate::error::Error;
use crate::text::is_substring_of;
use crate::text::lex_leq;
use crate::text::lower_of;
use crate::text::str_contains;
use crate::text::str_lex_leq;
use crate::text::to_lower;

verus! {

/// Repository metadata for one package, immutable once synced.
pub struct PackageInfo {
    pub name: String,
    pub version: String,
    pub category: String,
    pub description: String,
    pub depends: Vec<String>,
    pub size: String,
    pub sha256: String,
    pub filename: String,
}

/// The mathematical value of a `PackageInfo`: every field as a sequence.
#[verifier::ext_equal]
pub struct PkgView {
    pub name: Seq<char>,
    pub version: Seq<char>,
    pub category: Seq<char>,
    pub description: Seq<char>,
    pub depends: Seq<Seq<char>>,
    pub size: Seq<char>,
    pub sha256: Seq<char>,
    pub filename: Seq<char>,
}

/// The views of a sequence of strings.
pub open spec fn names_of(s: Seq<String>) -> Seq<Seq<char>> {
    s.map_values(|x: String| x@)
}

impl View for PackageInfo {
    type V = PkgView;

    open spec fn view(&self) -> PkgView {
        PkgView {
            name: self.name@,
            version: self.version@,
            category: self.category@,
            description: self.description@,
            depends: names_of(self.depends@),
            size: self.size@,
            sha256: self.sha256@,
            filename: self.filename@,
        }
    }
}

impl Clone for PackageInfo {
    fn clone(&self) -> (r: Self)
        ensures
            r@ == self@,
    {
        let r = PackageInfo {
            name: self.name.clone(),
            version: self.version.clone(),
            category: self.category.clone(),
            description: self.description.clone(),
            depends: self.depends.clone(),
            size: self.size.clone(),
            sha256: self.sha256.clone(),
            filename: self.filename.clone(),
        };
        proof {
            assert(r.depends@ =~= self.depends@);
            assert(r@ =~~= self@);
        }
        r
    }
}

/// Record of one locally installed package.
pub struct InstalledPackage {
    pub name: String,
    pub version: String,
    pub installed_at: String,
    pub files: Vec<String>,
}

/// The mathematical value of an `InstalledPackage`.
#[verifier::ext_equal]
pub struct InstView {
    pub name: Seq<char>,
    pub version: Seq<char>,
    pub installed_at: Seq<char>,
    pub files: Seq<Seq<char>>,
}

impl View for InstalledPackage {
    type V = InstView;

    open spec fn view(&self) -> InstView {
        InstView {
            name: self.name@,
            version: self.version@,
            installed_at: self.installed_at@,
            files: names_of(self.files@),
        }
    }
}

impl Clone for InstalledPackage {
    fn clone(&self) -> (r: Self)
        ensures
            r@ == self@,
    {
        let r = InstalledPackage {
            name: self.name.clone(),
            version: self.version.clone(),
            installed_at: self.installed_at.clone(),
            files: self.files.clone(),
        };
        proof {
            assert(r.files@ =~= self.files@);
            assert(r@ =~~= self@);
        }
        r
    }
}

/// The views of a sequence of installation records.
pub open spec fn inst_views(s: Seq<InstalledPackage>) -> Seq<InstView> {
    s.map_values(|r: InstalledPackage| r@)
}

/// The views of a sequence of packages.
pub open spec fn pkg_views(s: Seq<PackageInfo>) -> Seq<PkgView> {
    s.map_values(|p: PackageInfo| p@)
}

/// Two entries of `s` share the name `n`.
pub open spec fn dup_pkg_name(s: Seq<PackageInfo>, n: Seq<char>) -> bool {
    exists|i: int, j: int|
        0 <= i < j < s.len() && (#[trigger] s[i]).name@ == n && (#[trigger] s[j]).name@ == n
}

/// Two entries of `s` share the name `n`.
pub open spec fn dup_inst_name(s: Seq<InstalledPackage>, n: Seq<char>) -> bool {
    exists|i: int, j: int|
        0 <= i < j < s.len() && (#[trigger] s[i]).name@ == n && (#[trigger] s[j]).name@ == n
}

/// The two persisted mappings: the repository snapshot, replaced wholesale on
/// each sync, and the locally owned installed set.
pub struct Database {
    pub packages: Vec<PackageInfo>,
    pub installed: Vec<InstalledPackage>,
}

impl Database {
    /// Well-formed: names identify entries uniquely in both mappings.
    pub open spec fn wf(self) -> bool {
        &&& forall|i: int, j: int|
            0 <= i < j < self.packages@.len() ==> (#[trigger] self.packages@[i]).name@ != (
            #[trigger] self.packages@[j]).name@
        &&& forall|i: int, j: int|
            0 <= i < j < self.installed@.len() ==> (#[trigger] self.installed@[i]).name@ != (
            #[trigger] self.installed@[j]).name@
    }

    /// The repository snapshot knows a package called `n`.
    pub open spec fn has_pkg(self, n: Seq<char>) -> bool {
        exists|i: int| 0 <= i < self.packages@.len() && (#[trigger] self.packages@[i]).name@ == n
    }

    /// The index of the package called `n` in the snapshot.
    pub open spec fn pkg_idx(self, n: Seq<char>) -> int {
        choose|i: int| 0 <= i < self.packages@.len() && (#[trigger] self.packages@[i]).name@ == n
    }

    /// The metadata of the package called `n`.
    pub open spec fn pkg_of(self, n: Seq<char>) -> PkgView {
        self.packages@[self.pkg_idx(n)]@
    }

    /// A package called `n` is installed.
    pub open spec fn has_inst(self, n: Seq<char>) -> bool {
        exists|i: int| 0 <= i < self.installed@.len() && (#[trigger] self.installed@[i]).name@ == n
    }

    /// The index of the installation record called `n`.
    pub open spec fn inst_idx(self, n: Seq<char>) -> int {
        choose|i: int| 0 <= i < self.installed@.len() && (#[trigger] self.installed@[i]).name@ == n
    }

    /// The installation record of the package called `n`.
    pub open spec fn inst_of(self, n: Seq<char>) -> InstView {
        self.installed@[self.inst_idx(n)]@
    }

    /// The empty database: nothing synced, nothing installed.
    pub fn new() -> (db: Database)
        ensures
            db.wf(),
            db.packages@.len() == 0,
            db.installed@.len() == 0,
    {
        Database { packages: Vec::new(), installed: Vec::new() }
    }

    /// Assemble a database from a parsed repository snapshot and installed
    /// set, rejecting duplicate names in either: succeeds exactly when both
    /// mappings key their entries uniquely, and then carries them unchanged.
    pub fn from_parts(packages: Vec<PackageInfo>, installed: Vec<InstalledPackage>) -> (r: Result<
        Database,
        Error,
    >)
        ensures
            match r {
                Ok(db) => {
                    &&& db.packages@ == packages@
                    &&& db.installed@ == installed@
                    &&& db.wf()
                },
                Err(e) => {
                    &&& e matches Error::DuplicatePackage { name } && (dup_pkg_name(
                        packages@,
                        name@,
                    ) || dup_inst_name(installed@, name@))
                },
            },
    {
        let n = packages.len();
        for i in 0..n
            invariant
                n == packages@.len(),
                forall|a: int, b: int|
                    0 <= a < b < i ==> (#[trigger] packages@[a]).name@ != (
                    #[trigger] packages@[b]).name@,
        {
            for j in 0..i
                invariant
                    i < n == packages@.len(),
                    forall|b: int| 0 <= b < j ==> (#[trigger] packages@[b]).name@ != packages@[i as int].name@,
            {
                if packages[j].name == packages[i].name {
                    return Err(Error::DuplicatePackage { name: packages[i].name.clone() });
                }
            }
        }
        let m = installed.len();
        for i in 0..m
            invariant
                m == installed@.len(),
                forall|a: int, b: int|
                    0 <= a < b < i ==> (#[trigger] installed@[a]).name@ != (
                    #[trigger] installed@[b]).name@,
        {
            for j in 0..i
                invariant
                    i < m == installed@.len(),
                    forall|b: int| 0 <= b < j ==> (#[trigger] installed@[b]).name@ != installed@[i as int].name@,
            {
                if installed[j].name == installed[i].name {
                    return Err(Error::DuplicatePackage { name: installed[i].name.clone() });
                }
            }
        }
        Ok(Database { packages, installed })
    }

    /// Exact-name lookup in the repository snapshot: returns the metadata of
    /// the package called `name` exactly when the snapshot knows it, and
    /// `NotFound` exactly when it does not.
    pub fn find_package(&self, name: &str) -> (r: Result<PackageInfo, Error>)
        requires
            self.wf(),
        ensures
            match r {
                Ok(p) => self.has_pkg(name@) && p@ == self.pkg_of(name@),
                Err(e) => !self.has_pkg(name@) && (e matches Error::NotFound { name: n } && n@
                    == name@),
            },
    {
        let q: String = name.to_owned();
        let n = self.packages.len();
        for i in 0..n
            invariant
                n == self.packages@.len(),
                q@ == name@,
                self.wf(),
                forall|k: int| 0 <= k < i ==> (#[trigger] self.packages@[k]).name@ != name@,
        {
            if self.packages[i].name == q {
                let p = self.packages[i].clone();
                proof {
                    let k = self.pkg_idx(name@);
                    assert(self.packages@[k].name@ == name@);
                    assert(k == i as int);
                }
                return Ok(p);
            }
        }
        Err(Error::NotFound { name: q })
    }

    /// Pure lookup in the installed set; `None` when `name` is not installed.
    pub fn get_installed(&self, name: &str) -> (r: Option<&InstalledPackage>)
        requires
            self.wf(),
        ensures
            match r {
                Some(p) => self.has_inst(name@) && p@ == self.inst_of(name@),
                None => !self.has_inst(name@),
            },
    {
        let q: String = name.to_owned();
        let n = self.installed.len();
        for i in 0..n
            invariant
                n == self.installed@.len(),
                q@ == name@,
                self.wf(),
                forall|k: int| 0 <= k < i ==> (#[trigger] self.installed@[k]).name@ != name@,
        {
            if self.installed[i].name == q {
                proof {
                    let k = self.inst_idx(name@);
                    assert(self.installed@[k].name@ == name@);
                    assert(k == i as int);
                }
                return Some(&self.installed[i]);
            }
        }
        None
    }
    /// Case-insensitive substring match over name or description.
    pub open spec fn matches_query(p: PkgView, q: Seq<char>) -> bool {
        ||| is_substring_of(lower_of(q), lower_of(p.name))
        ||| is_substring_of(lower_of(q), lower_of(p.description))
    }

    /// The packages of `s` matching `q`, in snapshot order.
    pub open spec fn search_results(s: Seq<PackageInfo>, q: Seq<char>) -> Seq<PkgView>
        decreases s.len(),
    {
        if s.len() == 0 {
            Seq::empty()
        } else {
            let rest = Self::search_results(s.drop_last(), q);
            if Self::matches_query(s.last()@, q) {
                rest.push(s.last()@)
            } else {
                rest
            }
        }
    }

    /// Case-insensitive substring search over package name or description;
    /// results keep the repository snapshot's order.
    pub fn search(&self, query: &str) -> (res: Vec<PackageInfo>)
        ensures
            pkg_views(res@) == Self::search_results(self.packages@, query@),
    {
        let lq = to_lower(query);
        let mut out: Vec<PackageInfo> = Vec::new();
        let n = self.packages.len();
        proof {
            assert(self.packages@.take(0) =~= Seq::<PackageInfo>::empty());
            assert(pkg_views(out@) =~= Self::search_results(self.packages@.take(0), query@));
        }
        for i in 0..n
            invariant
                n == self.packages@.len(),
                lq@ == lower_of(query@),
                pkg_views(out@) == Self::search_results(self.packages@.take(i as int), query@),
        {
            let p = &self.packages[i];
            let ln = to_lower(p.name.as_str());
            let ld = to_lower(p.description.as_str());
            let hit = str_contains(ln.as_str(), lq.as_str()) || str_contains(
                ld.as_str(),
                lq.as_str(),
            );
            proof {
                assert(self.packages@.take(i + 1).drop_last() =~= self.packages@.take(i as int));
                assert(self.packages@.take(i + 1).last() == self.packages@[i as int]);
            }
            if hit {
                out.push(p.clone());
            }
            proof {
                assert(pkg_views(out@) =~= Self::search_results(
                    self.packages@.take(i + 1),
                    query@,
                ));
            }
        }
        proof {
            assert(self.packages@.take(n as int) =~= self.packages@);
        }
        out
    }

    /// The installed records, sorted lexicographically by name: one entry
    /// for every installed name, each being that name's record, in
    /// lexicographic name order.
    pub fn list_installed(&self) -> (res: Vec<InstalledPackage>)
        requires
            self.wf(),
        ensures
            res@.len() == self.installed@.len(),
            sorted_by_name(res@),
            forall|j: int|
                0 <= j < res@.len() ==> self.has_inst((#[trigger] res@[j]).name@) && res@[j]@
                    == self.inst_of(res@[j].name@),
            forall|k: int|
                0 <= k < self.installed@.len() ==> name_present(
                    res@,
                    (#[trigger] self.installed@[k]).name@,
                ),
    {
        let mut out: Vec<InstalledPackage> = Vec::new();
        let n = self.installed.len();
        for k in 0..n
            invariant
                n == self.installed@.len(),
                self.wf(),
                out@.len() == k,
                sorted_by_name(out@),
                forall|j: int|
                    0 <= j < out@.len() ==> self.has_inst((#[trigger] out@[j]).name@) && out@[j]@
                        == self.inst_of(out@[j].name@),
                forall|t: int|
                    0 <= t < k ==> name_present(out@, (#[trigger] self.installed@[t]).name@),
        {
            let rec = self.installed[k].clone();
            proof {
                let ki = self.inst_idx(rec.name@);
                assert(self.installed@[k as int].name@ == rec.name@);
                assert(self.installed@[ki].name@ == rec.name@);
                assert(ki == k as int);
                assert(rec@ == self.inst_of(rec.name@));
            }
            let ghost outpre = out@;
            let ghost grec = rec;
            insert_sorted(&mut out, rec);
            proof {
                assert forall|j: int| 0 <= j < out@.len() implies self.has_inst(
                    (#[trigger] out@[j]).name@,
                ) && out@[j]@ == self.inst_of(out@[j].name@) by {
                    if out@[j] == grec {
                    } else {
                        let t0 = choose|t: int| 0 <= t < outpre.len() && out@[j] == outpre[t];
                        assert(self.has_inst(outpre[t0].name@));
                    }
                }
                assert forall|t: int| 0 <= t < k + 1 implies name_present(
                    out@,
                    (#[trigger] self.installed@[t]).name@,
                ) by {
                    if t == k {
                        let j = choose|j: int| 0 <= j < out@.len() && (#[trigger] out@[j]) == grec;
                        assert(out@[j].name@ == self.installed@[t].name@);
                    } else {
                        let j0 = choose|j: int|
                            0 <= j < outpre.len() && (#[trigger] outpre[j]).name@
                                == self.installed@[t].name@;
                        assert(exists|j: int|
                            0 <= j < out@.len() && out@[j] == (#[trigger] outpre[j0]));
                        let j1 = choose|j: int| 0 <= j < out@.len() && out@[j] == outpre[j0];
                        assert(out@[j1].name@ == self.installed@[t].name@);
                    }
                }
            }
        }
        out
    }
}

impl Database {
    /// Whether an installed record at `r` is upgradeable: the snapshot knows
    /// its name and offers a version whose string differs (byte-wise; no
    /// semantic version comparison).
    pub open spec fn upgrade_entry(self, r: InstView) -> bool {
        self.has_pkg(r.name) && self.pkg_of(r.name).version != r.version
    }

    /// The upgrade triples (name, installed version, available version) drawn
    /// from the records of `s`, in order.
    pub open spec fn upgrades_from(self, s: Seq<InstalledPackage>) -> Seq<
        (Seq<char>, Seq<char>, Seq<char>),
    >
        decreases s.len(),
    {
        if s.len() == 0 {
            Seq::empty()
        } else {
            let rest = self.upgrades_from(s.drop_last());
            let r = s.last()@;
            if self.upgrade_entry(r) {
                rest.push((r.name, r.version, self.pkg_of(r.name).version))
            } else {
                rest
            }
        }
    }

    /// The upgrade triples of every installed record, in installed order.
    pub open spec fn upgrades_of(self) -> Seq<(Seq<char>, Seq<char>, Seq<char>)> {
        self.upgrades_from(self.installed@)
    }

    /// One (name, installed version, available version) triple for exactly
    /// the installed packages whose repository version string differs from
    /// the installed one.
    pub fn check_upgrades(&self) -> (res: Vec<(String, String, String)>)
        requires
            self.wf(),
        ensures
            triple_views(res@) == self.upgrades_of(),
    {
        let mut out: Vec<(String, String, String)> = Vec::new();
        let n = self.installed.len();
        proof {
            assert(self.installed@.take(0) =~= Seq::<InstalledPackage>::empty());
            assert(triple_views(out@) =~= self.upgrades_from(self.installed@.take(0)));
        }
        for i in 0..n
            invariant
                n == self.installed@.len(),
                self.wf(),
                triple_views(out@) == self.upgrades_from(self.installed@.take(i as int)),
        {
            let rec = &self.installed[i];
            proof {
                assert(self.installed@.take(i + 1).drop_last() =~= self.installed@.take(i as int));
                assert(self.installed@.take(i + 1).last() == self.installed@[i as int]);
            }
            match self.find_package(rec.name.as_str()) {
                Ok(p) => {
                    if p.version != rec.version {
                        out.push((rec.name.clone(), rec.version.clone(), p.version));
                    }
                },
                Err(_) => {},
            }
            proof {
                assert(triple_views(out@) =~= self.upgrades_from(self.installed@.take(i + 1)));
            }
        }
        proof {
            assert(self.installed@.take(n as int) =~= self.installed@);
        }
        out
    }

    /// Upsert the installation record for `pkg`: whatever record bore its
    /// name is dropped, and a record with the package's name and version, the
    /// given timestamp and the given owned file list is appended. The
    /// repository snapshot is untouched. Persisting the change is the
    /// caller's business.
    pub fn record_install(&mut self, pkg: &PackageInfo, installed_at: String, files: Vec<String>)
        requires
            old(self).wf(),
        ensures
            final(self).wf(),
            final(self).packages@ == old(self).packages@,
            inst_views(final(self).installed@) == drop_name(
                inst_views(old(self).installed@),
                pkg.name@,
            ).push(
                (InstView {
                    name: pkg.name@,
                    version: pkg.version@,
                    installed_at: installed_at@,
                    files: names_of(files@),
                }),
            ),
            final(self).has_inst(pkg.name@),
    {
        let mut kept: Vec<InstalledPackage> = Vec::new();
        let n = self.installed.len();
        proof {
            assert(self.installed@.take(0) =~= Seq::<InstalledPackage>::empty());
            assert(inst_views(self.installed@.take(0)) =~= Seq::<InstView>::empty());
            assert(inst_views(kept@) =~= drop_name(
                inst_views(self.installed@.take(0)),
                pkg.name@,
            ));
        }
        for i in 0..n
            invariant
                n == self.installed@.len(),
                self.wf(),
                inst_views(kept@) == drop_name(
                    inst_views(self.installed@.take(i as int)),
                    pkg.name@,
                ),
        {
            let rec = &self.installed[i];
            proof {
                assert(inst_views(self.installed@.take(i + 1)).drop_last() =~= inst_views(
                    self.installed@.take(i as int),
                ));
                assert(inst_views(self.installed@.take(i + 1)).last() == self.installed@[i as int]@);
            }
            if !(rec.name == pkg.name) {
                kept.push(rec.clone());
            }
            proof {
                assert(inst_views(kept@) =~= drop_name(
                    inst_views(self.installed@.take(i + 1)),
                    pkg.name@,
                ));
            }
        }
        proof {
            assert(self.installed@.take(n as int) =~= self.installed@);
        }
        let rec = InstalledPackage {
            name: pkg.name.clone(),
            version: pkg.version.clone(),
            installed_at,
            files,
        };
        let ghost keptfinal = kept@;
        kept.push(rec);
        self.installed = kept;
        proof {
            assert forall|a: int, b: int|
                0 <= a < b < inst_views(old(self).installed@).len() implies (
            #[trigger] inst_views(old(self).installed@)[a]).name != (#[trigger] inst_views(
                old(self).installed@,
            )[b]).name by {
                assert(inst_views(old(self).installed@)[a] == old(self).installed@[a]@);
                assert(inst_views(old(self).installed@)[b] == old(self).installed@[b]@);
            }
            lemma_drop_name_unique(inst_views(old(self).installed@), pkg.name@);
            assert forall|a: int| 0 <= a < keptfinal.len() implies (#[trigger] keptfinal[a]).name@
                != pkg.name@ && forall|b: int|
                0 <= b < a ==> (#[trigger] keptfinal[b]).name@ != keptfinal[a].name@ by {
                assert(inst_views(keptfinal)[a] == keptfinal[a]@);
                assert forall|b: int| 0 <= b < a implies (#[trigger] keptfinal[b]).name@
                    != keptfinal[a].name@ by {
                    assert(inst_views(keptfinal)[b] == keptfinal[b]@);
                }
            }
            assert(inst_views(self.installed@) =~= drop_name(
                inst_views(old(self).installed@),
                pkg.name@,
            ).push(
                (InstView {
                    name: pkg.name@,
                    version: pkg.version@,
                    installed_at: installed_at@,
                    files: names_of(files@),
                }),
            ));
            assert(self.installed@[self.installed@.len() - 1].name@ == pkg.name@);
        }
    }

    /// Delete the installation record bearing `name`, if any; every other
    /// record stays, in order. The repository snapshot is untouched.
    /// Persisting the change is the caller's business.
    pub fn remove_installed(&mut self, name: &str)
        requires
            old(self).wf(),
        ensures
            final(self).wf(),
            final(self).packages@ == old(self).packages@,
            inst_views(final(self).installed@) == drop_name(
                inst_views(old(self).installed@),
                name@,
            ),
            !final(self).has_inst(name@),
    {
        let q: String = name.to_owned();
        let mut kept: Vec<InstalledPackage> = Vec::new();
        let n = self.installed.len();
        proof {
            assert(self.installed@.take(0) =~= Seq::<InstalledPackage>::empty());
            assert(inst_views(kept@) =~= drop_name(inst_views(self.installed@.take(0)), name@));
        }
        for i in 0..n
            invariant
                n == self.installed@.len(),
                self.wf(),
                q@ == name@,
                inst_views(kept@) == drop_name(inst_views(self.installed@.take(i as int)), name@),
        {
            let rec = &self.installed[i];
            proof {
                assert(inst_views(self.installed@.take(i + 1)).drop_last() =~= inst_views(
                    self.installed@.take(i as int),
                ));
                assert(inst_views(self.installed@.take(i + 1)).last() == self.installed@[i as int]@);
            }
            if !(rec.name == q) {
                kept.push(rec.clone());
            }
            proof {
                assert(inst_views(kept@) =~= drop_name(
                    inst_views(self.installed@.take(i + 1)),
                    name@,
                ));
            }
        }
        proof {
            assert(self.installed@.take(n as int) =~= self.installed@);
        }
        let ghost keptfinal = kept@;
        self.installed = kept;
        proof {
            assert forall|a: int, b: int|
                0 <= a < b < inst_views(old(self).installed@).len() implies (
            #[trigger] inst_views(old(self).installed@)[a]).name != (#[trigger] inst_views(
                old(self).installed@,
            )[b]).name by {
                assert(inst_views(old(self).installed@)[a] == old(self).installed@[a]@);
                assert(inst_views(old(self).installed@)[b] == old(self).installed@[b]@);
            }
            lemma_drop_name_unique(inst_views(old(self).installed@), name@);
            assert forall|a: int| 0 <= a < keptfinal.len() implies (#[trigger] keptfinal[a]).name@
                != name@ && forall|b: int|
                0 <= b < a ==> (#[trigger] keptfinal[b]).name@ != keptfinal[a].name@ by {
                assert(inst_views(keptfinal)[a] == keptfinal[a]@);
                assert forall|b: int| 0 <= b < a implies (#[trigger] keptfinal[b]).name@
                    != keptfinal[a].name@ by {
                    assert(inst_views(keptfinal)[b] == keptfinal[b]@);
                }
            }
        }
    }
}

/// The views of a sequence of string triples.
pub open spec fn triple_views(s: Seq<(String, String, String)>) -> Seq<
    (Seq<char>, Seq<char>, Seq<char>),
> {
    s.map_values(|t: (String, String, String)| (t.0@, t.1@, t.2@))
}

/// The records of `s` whose name is not `n`, in order.
pub open spec fn drop_name(s: Seq<InstView>, n: Seq<char>) -> Seq<InstView>
    decreases s.len(),
{
    if s.len() == 0 {
        Seq::empty()
    } else {
        let rest = drop_name(s.drop_last(), n);
        if s.last().name == n {
            rest
        } else {
            rest.push(s.last())
        }
    }
}

/// What `drop_name` keeps: no record bearing the dropped name, names drawn
/// from `s`, and pairwise-distinct names whenever `s` had them.
pub proof fn lemma_drop_name_unique(s: Seq<InstView>, n: Seq<char>)
    requires
        forall|i: int, j: int|
            0 <= i < j < s.len() ==> (#[trigger] s[i]).name != (#[trigger] s[j]).name,
    ensures
        forall|i: int| 0 <= i < drop_name(s, n).len() ==> (#[trigger] drop_name(s, n)[i]).name != n,
        forall|i: int|
            0 <= i < drop_name(s, n).len() ==> exists|j: int|
                0 <= j < s.len() && (#[trigger] drop_name(s, n)[i]).name == s[j].name,
        forall|i: int, j: int|
            0 <= i < j < drop_name(s, n).len() ==> (#[trigger] drop_name(s, n)[i]).name != (
            #[trigger] drop_name(s, n)[j]).name,
    decreases s.len(),
{
    if s.len() == 0 {
    } else {
        let pre = s.drop_last();
        assert(forall|i: int, j: int|
            0 <= i < j < pre.len() ==> (#[trigger] pre[i]).name != (#[trigger] pre[j]).name);
        lemma_drop_name_unique(pre, n);
        let rest = drop_name(pre, n);
        if s.last().name == n {
            assert(drop_name(s, n) == rest);
            assert forall|i: int| 0 <= i < drop_name(s, n).len() implies exists|j: int|
                0 <= j < s.len() && (#[trigger] drop_name(s, n)[i]).name == s[j].name by {
                let j0 = choose|j: int|
                    0 <= j < pre.len() && (#[trigger] rest[i]).name == pre[j].name;
                assert(drop_name(s, n)[i].name == s[j0].name);
            }
        } else {
            assert(drop_name(s, n) == rest.push(s.last()));
            assert forall|i: int| 0 <= i < drop_name(s, n).len() implies exists|j: int|
                0 <= j < s.len() && (#[trigger] drop_name(s, n)[i]).name == s[j].name by {
                if i < rest.len() {
                    let j0 = choose|j: int|
                        0 <= j < pre.len() && (#[trigger] rest[i]).name == pre[j].name;
                    assert(drop_name(s, n)[i].name == s[j0].name);
                } else {
                    assert(drop_name(s, n)[i].name == s[s.len() - 1].name);
                }
            }
            assert forall|i: int, j: int| 0 <= i < j < drop_name(s, n).len() implies (
            #[trigger] drop_name(s, n)[i]).name != (#[trigger] drop_name(s, n)[j]).name by {
                if j == rest.len() {
                    let j0 = choose|t: int|
                        0 <= t < pre.len() && (#[trigger] rest[i]).name == pre[t].name;
                    assert(s[j0].name != s[s.len() - 1].name);
                }
            }
        }
    }
}

/// Dropping a name that no record bears changes nothing.
pub proof fn lemma_drop_name_absent(s: Seq<InstView>, n: Seq<char>)
    requires
        forall|i: int| 0 <= i < s.len() ==> (#[trigger] s[i]).name != n,
    ensures
        drop_name(s, n) == s,
    decreases s.len(),
{
    if s.len() == 0 {
        assert(drop_name(s, n) =~= s);
    } else {
        assert(forall|i: int|
            0 <= i < s.drop_last().len() ==> (#[trigger] s.drop_last()[i]).name != n);
        lemma_drop_name_absent(s.drop_last(), n);
        assert(s.last().name != n);
        assert(drop_name(s, n) =~= s);
    }
}

/// Law: recording an installation and then removing it restores the
/// installed mapping exactly, provided the name was not installed before.
/// `s` is the installed set's view, `r` the record the installation adds.
pub proof fn lemma_install_remove_round_trip(s: Seq<InstView>, r: InstView)
    requires
        forall|i: int| 0 <= i < s.len() ==> (#[trigger] s[i]).name != r.name,
    ensures
        drop_name(drop_name(s, r.name).push(r), r.name) == s,
{
    lemma_drop_name_absent(s, r.name);
    assert(drop_name(s, r.name).push(r).drop_last() =~= s);
    assert(drop_name(drop_name(s, r.name).push(r), r.name) == drop_name(s, r.name));
}

/// Law: installing a package and then removing it leaves the database's
/// installed mapping as it was: `one` is any database reached from `base` by
/// `record_install` of `pkg`, and `two` any database reached from `one` by
/// `remove_installed` of the same name.
pub proof fn lemma_install_remove_restores(
    base: Database,
    one: Database,
    two: Database,
    pkg: PackageInfo,
    rec: InstView,
)
    requires
        !base.has_inst(pkg.name@),
        rec.name == pkg.name@,
        inst_views(one.installed@) == drop_name(inst_views(base.installed@), pkg.name@).push(rec),
        inst_views(two.installed@) == drop_name(inst_views(one.installed@), pkg.name@),
    ensures
        inst_views(two.installed@) == inst_views(base.installed@),
{
    assert forall|i: int| 0 <= i < inst_views(base.installed@).len() implies (#[trigger] inst_views(
        base.installed@,
    )[i]).name != rec.name by {
        assert(inst_views(base.installed@)[i] == base.installed@[i]@);
    }
    lemma_install_remove_round_trip(inst_views(base.installed@), rec);
}

/// Law: the upgrade list carries a triple exactly for the installed records
/// whose repository version string differs from the installed one, naming the
/// record's name, its installed version and the repository version.
pub proof fn lemma_upgrades_member(
    db: Database,
    s: Seq<InstalledPackage>,
    t: (Seq<char>, Seq<char>, Seq<char>),
)
    ensures
        db.upgrades_from(s).contains(t) <==> exists|i: int|
            0 <= i < s.len() && db.upgrade_entry((#[trigger] s[i])@) && t == (
                s[i]@.name,
                s[i]@.version,
                db.pkg_of(s[i]@.name).version,
            ),
    decreases s.len(),
{
    if s.len() == 0 {
    } else {
        let pre = s.drop_last();
        lemma_upgrades_member(db, pre, t);
        let r = s.last()@;
        let rest = db.upgrades_from(pre);
        assert(forall|i: int| 0 <= i < pre.len() ==> (#[trigger] pre[i]) == s[i]);
        if db.upgrade_entry(r) {
            let x = (r.name, r.version, db.pkg_of(r.name).version);
            assert(db.upgrades_from(s) == rest.push(x));
            if db.upgrades_from(s).contains(t) {
                let i = choose|i: int| 0 <= i < rest.push(x).len() && rest.push(x)[i] == t;
                if i < rest.len() {
                    assert(rest[i] == t);
                    assert(rest.contains(t));
                    let j = choose|j: int|
                        0 <= j < pre.len() && db.upgrade_entry((#[trigger] pre[j])@) && t == (
                            pre[j]@.name,
                            pre[j]@.version,
                            db.pkg_of(pre[j]@.name).version,
                        );
                    assert(db.upgrade_entry(s[j]@) && t == (
                        s[j]@.name,
                        s[j]@.version,
                        db.pkg_of(s[j]@.name).version,
                    ));
                } else {
                    assert(t == x);
                    assert(db.upgrade_entry(s[s.len() - 1]@));
                }
            }
            if exists|i: int|
                0 <= i < s.len() && db.upgrade_entry((#[trigger] s[i])@) && t == (
                    s[i]@.name,
                    s[i]@.version,
                    db.pkg_of(s[i]@.name).version,
                ) {
                let i = choose|i: int|
                    0 <= i < s.len() && db.upgrade_entry((#[trigger] s[i])@) && t == (
                        s[i]@.name,
                        s[i]@.version,
                        db.pkg_of(s[i]@.name).version,
                    );
                if i < s.len() - 1 {
                    assert(db.upgrade_entry(pre[i]@) && t == (
                        pre[i]@.name,
                        pre[i]@.version,
                        db.pkg_of(pre[i]@.name).version,
                    ));
                    assert(rest.contains(t));
                    let j = choose|j: int| 0 <= j < rest.len() && rest[j] == t;
                    assert(rest.push(x)[j] == t);
                } else {
                    assert(t == x);
                    assert(rest.push(x)[rest.len() as int] == x);
                }
                assert(db.upgrades_from(s).contains(t));
            }
        } else {
            assert(db.upgrades_from(s) == rest);
            if exists|i: int|
                0 <= i < s.len() && db.upgrade_entry((#[trigger] s[i])@) && t == (
                    s[i]@.name,
                    s[i]@.version,
                    db.pkg_of(s[i]@.name).version,
                ) {
                let i = choose|i: int|
                    0 <= i < s.len() && db.upgrade_entry((#[trigger] s[i])@) && t == (
                        s[i]@.name,
                        s[i]@.version,
                        db.pkg_of(s[i]@.name).version,
                    );
                assert(i < s.len() - 1);
                assert(db.upgrade_entry(pre[i]@) && t == (
                    pre[i]@.name,
                    pre[i]@.version,
                    db.pkg_of(pre[i]@.name).version,
                ));
            }
            if db.upgrades_from(s).contains(t) {
                let j = choose|j: int|
                    0 <= j < pre.len() && db.upgrade_entry((#[trigger] pre[j])@) && t == (
                        pre[j]@.name,
                        pre[j]@.version,
                        db.pkg_of(pre[j]@.name).version,
                    );
                assert(db.upgrade_entry(s[j]@) && t == (
                    s[j]@.name,
                    s[j]@.version,
                    db.pkg_of(s[j]@.name).version,
                ));
            }
        }
    }
}

/// Law: when every installed record that the snapshot knows is at the
/// snapshot's version, the upgrade list is empty.
pub proof fn lemma_all_current_no_upgrades(db: Database, s: Seq<InstalledPackage>)
    requires
        forall|i: int| 0 <= i < s.len() ==> !db.upgrade_entry((#[trigger] s[i])@),
    ensures
        db.upgrades_from(s) == Seq::<(Seq<char>, Seq<char>, Seq<char>)>::empty(),
    decreases s.len(),
{
    if s.len() == 0 {
        assert(db.upgrades_from(s) =~= Seq::<(Seq<char>, Seq<char>, Seq<char>)>::empty());
    } else {
        let pre = s.drop_last();
        assert(forall|i: int| 0 <= i < pre.len() ==> (#[trigger] pre[i]) == s[i]);
        lemma_all_current_no_upgrades(db, pre);
        assert(!db.upgrade_entry(s[s.len() - 1]@));
    }
}

/// Some record in `s` bears the name `n`.
pub open spec fn name_present(s: Seq<InstalledPackage>, n: Seq<char>) -> bool {
    exists|j: int| 0 <= j < s.len() && (#[trigger] s[j]).name@ == n
}

/// `s` is sorted lexicographically by package name.
pub open spec fn sorted_by_name(s: Seq<InstalledPackage>) -> bool {
    forall|i: int, j: int|
        0 <= i < j < s.len() ==> lex_leq((#[trigger] s[i]).name@, (#[trigger] s[j]).name@)
}

/// Insert `rec` into the name-sorted vector `out`, keeping it sorted and
/// keeping every record already there.
#[verifier::rlimit(100)]
fn insert_sorted(out: &mut Vec<InstalledPackage>, rec: InstalledPackage)
    requires
        sorted_by_name(old(out)@),
    ensures
        final(out)@.len() == old(out)@.len() + 1,
        sorted_by_name(final(out)@),
        forall|t: int|
            0 <= t < old(out)@.len() ==> exists|j: int|
                0 <= j < final(out)@.len() && final(out)@[j] == (#[trigger] old(out)@[t]),
        exists|j: int| 0 <= j < final(out)@.len() && (#[trigger] final(out)@[j]) == rec,
        forall|j: int|
            0 <= j < final(out)@.len() ==> (#[trigger] final(out)@[j]) == rec || exists|t: int|
                0 <= t < old(out)@.len() && final(out)@[j] == (#[trigger] old(out)@[t]),
{
    let mut pos: usize = 0;
    loop
        invariant
            pos <= out@.len(),
            out == old(out),
            forall|i: int| 0 <= i < pos ==> lex_leq((#[trigger] out@[i]).name@, rec.name@),
        ensures
            pos <= out@.len(),
            out == old(out),
            forall|i: int| 0 <= i < pos ==> lex_leq((#[trigger] out@[i]).name@, rec.name@),
            pos == out@.len() || !lex_leq(out@[pos as int].name@, rec.name@),
        decreases out@.len() - pos,
    {
        if pos == out.len() {
            break ;
        }
        if !str_lex_leq(out[pos].name.as_str(), rec.name.as_str()) {
            break ;
        }
        pos = pos + 1;
    }
    proof {
        if pos < out@.len() {
            crate::text::lemma_lex_total(out@[pos as int].name@, rec.name@);
        }
        assert forall|t: int| pos <= t < out@.len() implies lex_leq(
            rec.name@,
            (#[trigger] out@[t]).name@,
        ) by {
            if t > pos {
                crate::text::lemma_lex_trans(rec.name@, out@[pos as int].name@, out@[t].name@);
            }
        }
    }
    let ghost out0 = out@;
    let ghost grec = rec;
    out.insert(pos, rec);
    proof {
        assert(out@ == out0.insert(pos as int, grec));
        assert(out@.len() == out0.len() + 1);
        assert forall|x: int| 0 <= x < out@.len() implies out@[x] == (if x < pos {
            out0[x]
        } else if x == pos {
            grec
        } else {
            out0[x - 1]
        }) by {
        }
        assert forall|t: int| 0 <= t < out0.len() implies exists|j: int|
            0 <= j < out@.len() && out@[j] == (#[trigger] out0[t]) by {
            if t < pos {
                assert(out@[t] == out0[t]);
            } else {
                assert(out@[t + 1] == out0[t]);
            }
        }
        assert(out@[pos as int] == grec);
        assert forall|j: int| 0 <= j < out@.len() implies (#[trigger] out@[j]) == grec || exists|
            t: int,
        | 0 <= t < out0.len() && out@[j] == (#[trigger] out0[t]) by {
            if j < pos {
                assert(out@[j] == out0[j]);
            } else if j > pos {
                assert(out@[j] == out0[j - 1]);
            }
        }
    }
}

} // verus!
