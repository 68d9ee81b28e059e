//! The dependency resolver: a depth-first walk of the `depends` lists that
//! produces the ordered closure of packages still needing installation before
//! a target, dependencies strictly before their dependents. Nodes are tracked
//! as unvisited, in progress (on the walk's stack) or done; a dependency that
//! is already in progress is a back-edge, reported as `CycleDetected` and
//! naming the cycle's members. A dependency name the snapshot does not know
//! is treated as already satisfied and skipped.

use vstd::prelude::*;

use crate::db::Database;
use crate::db::PackageInfo;
use crate::error::Error;

verus! {

/// `n` occurs among the views of the strings of `s`.
pub open spec fn seq_has_name(s: Seq<String>, n: Seq<char>) -> bool {
    exists|i: int| 0 <= i < s.len() && (#[trigger] s[i])@ == n
}

/// What a push adds to the names of a string sequence.
pub proof fn lemma_has_name_push(v: Seq<String>, x: String, nm: Seq<char>)
    ensures
        seq_has_name(v.push(x), nm) <==> (seq_has_name(v, nm) || x@ == nm),
{
    if seq_has_name(v, nm) {
        let i = choose|i: int| 0 <= i < v.len() && (#[trigger] v[i])@ == nm;
        assert(v.push(x)[i]@ == nm);
    }
    if x@ == nm {
        assert(v.push(x)[v.len() as int]@ == nm);
    }
    if seq_has_name(v.push(x), nm) {
        let i = choose|i: int| 0 <= i < v.push(x).len() && (#[trigger] v.push(x)[i])@ == nm;
        if i < v.len() {
            assert(v[i]@ == nm);
        }
    }
}

/// How many packages of `pkgs` are not named in `st`: the walk's measure.
pub open spec fn free_count(pkgs: Seq<PackageInfo>, st: Seq<String>) -> nat
    decreases pkgs.len(),
{
    if pkgs.len() == 0 {
        0
    } else {
        free_count(pkgs.drop_last(), st) + (if seq_has_name(st, pkgs.last().name@) {
            0nat
        } else {
            1nat
        })
    }
}

/// Pushing a name never raises the measure, and strictly lowers it when the
/// name is a package name that was not yet on the stack.
pub proof fn lemma_free_count_push(pkgs: Seq<PackageInfo>, st: Seq<String>, x: String)
    ensures
        free_count(pkgs, st.push(x)) <= free_count(pkgs, st),
        (exists|i: int| 0 <= i < pkgs.len() && (#[trigger] pkgs[i]).name@ == x@) && !seq_has_name(
            st,
            x@,
        ) ==> free_count(pkgs, st.push(x)) < free_count(pkgs, st),
    decreases pkgs.len(),
{
    if pkgs.len() == 0 {
    } else {
        let pre = pkgs.drop_last();
        lemma_free_count_push(pre, st, x);
        let nm = pkgs.last().name@;
        lemma_has_name_push(st, x, nm);
        if (exists|i: int| 0 <= i < pkgs.len() && (#[trigger] pkgs[i]).name@ == x@)
            && !seq_has_name(st, x@) {
            let i = choose|i: int| 0 <= i < pkgs.len() && (#[trigger] pkgs[i]).name@ == x@;
            if i == pkgs.len() - 1 {
                assert(nm == x@);
                assert(seq_has_name(st.push(x), nm));
                assert(!seq_has_name(st, nm));
            } else {
                assert(pre[i].name@ == x@);
                assert(free_count(pre, st.push(x)) < free_count(pre, st));
            }
        }
    }
}

/// Pushing a known package name that is not yet on the stack strictly lowers
/// the walk's measure.
pub proof fn lemma_measure_decreases(db: Database, st: Seq<String>, x: String)
    requires
        db.has_pkg(x@),
        !seq_has_name(st, x@),
    ensures
        free_count(db.packages@, st.push(x)) < free_count(db.packages@, st),
{
    lemma_free_count_push(db.packages@, st, x);
    let pi = db.pkg_idx(x@);
    assert(db.packages@[pi].name@ == x@);
}

impl Database {
    /// The name `d` still needs installing: the snapshot knows it and it is
    /// not in the installed set.
    pub open spec fn needs_install(self, d: Seq<char>) -> bool {
        self.has_pkg(d) && !self.has_inst(d)
    }

    /// The `k`-th dependency name of the package named at position `j` of `ds`.
    pub open spec fn dep_at(self, ds: Seq<String>, j: int, k: int) -> Seq<char> {
        self.pkg_of(ds[j]@).depends[k]
    }

    /// Install order: every dependency of an entry that itself needs
    /// installing appears at a strictly earlier position.
    pub open spec fn install_ordered(self, ds: Seq<String>) -> bool {
        forall|j: int, k: int|
            0 <= j < ds.len() && 0 <= k < self.pkg_of(ds[j]@).depends.len() && self.needs_install(
                #[trigger] self.dep_at(ds, j, k),
            ) ==> exists|i: int| 0 <= i < j && (#[trigger] ds[i])@ == self.dep_at(ds, j, k)
    }

    /// The walk's data invariant over the output `ds` and the done set `dn`:
    /// every output entry needs installing, no name appears twice, every
    /// output entry is done, every done name that needs installing is in the
    /// output, and the output is in install order.
    pub open spec fn resolver_inv(self, ds: Seq<String>, dn: Seq<String>) -> bool {
        &&& forall|i: int| 0 <= i < ds.len() ==> self.needs_install((#[trigger] ds[i])@)
        &&& forall|i: int, j: int|
            0 <= i < j < ds.len() ==> (#[trigger] ds[i])@ != (#[trigger] ds[j])@
        &&& forall|i: int| 0 <= i < ds.len() ==> seq_has_name(dn, (#[trigger] ds[i])@)
        &&& forall|i: int|
            0 <= i < dn.len() && self.needs_install((#[trigger] dn[i])@) ==> seq_has_name(
                ds,
                dn[i]@,
            )
        &&& self.install_ordered(ds)
    }

    /// The walk's stack is a dependency chain of known packages: each entry
    /// names a package whose `depends` list holds the next entry's name.
    pub open spec fn chain_ok(self, st: Seq<String>) -> bool {
        &&& forall|i: int| 0 <= i < st.len() ==> self.has_pkg((#[trigger] st[i])@)
        &&& forall|i: int|
            0 <= i < st.len() - 1 ==> self.pkg_of((#[trigger] st[i])@).depends.contains(st[i + 1]@)
    }

    /// `c` names a genuine dependency cycle in the snapshot: known packages,
    /// each depending on the next, the last depending on the first.
    pub open spec fn genuine_cycle(self, c: Seq<String>) -> bool {
        &&& c.len() >= 1
        &&& forall|i: int| 0 <= i < c.len() ==> self.has_pkg((#[trigger] c[i])@)
        &&& forall|i: int|
            0 <= i < c.len() - 1 ==> self.pkg_of((#[trigger] c[i])@).depends.contains(c[i + 1]@)
        &&& self.pkg_of(c[c.len() - 1]@).depends.contains(c[0]@)
    }

    /// The ordered closure of additional packages to install before `pkg`:
    /// on success, every entry names a known, not yet installed package, no
    /// name twice, never the target itself, dependencies strictly before
    /// their dependents, and every dependency of the target that needs
    /// installing is in the list (so, through the order property, is the
    /// whole not-yet-installed closure). A dependency cycle is reported as
    /// `CycleDetected` naming a genuine cycle of the snapshot.
    pub fn resolve_deps(&self, pkg: &PackageInfo) -> (r: Result<Vec<String>, Error>)
        requires
            self.wf(),
            self.has_pkg(pkg.name@),
            pkg@ == self.pkg_of(pkg.name@),
        ensures
            match r {
                Ok(ds) => {
                    &&& forall|i: int| 0 <= i < ds@.len() ==> self.needs_install((#[trigger] ds@[i])@)
                    &&& forall|i: int, j: int|
                        0 <= i < j < ds@.len() ==> (#[trigger] ds@[i])@ != (#[trigger] ds@[j])@
                    &&& forall|i: int| 0 <= i < ds@.len() ==> (#[trigger] ds@[i])@ != pkg.name@
                    &&& self.install_ordered(ds@)
                    &&& forall|k: int|
                        0 <= k < pkg.depends@.len() && self.needs_install(
                            (#[trigger] pkg.depends@[k])@,
                        ) ==> seq_has_name(ds@, pkg.depends@[k]@)
                },
                Err(e) => e matches Error::CycleDetected { cycle } && self.genuine_cycle(cycle@),
            },
    {
        let mut deps: Vec<String> = Vec::new();
        let mut done: Vec<String> = Vec::new();
        let mut stack: Vec<String> = Vec::new();
        stack.push(pkg.name.clone());
        let ghost st0 = stack@;
        proof {
            assert(st0[0]@ == pkg.name@);
        }
        match self.resolve_into(pkg, &mut deps, &mut done, &mut stack) {
            Ok(()) => {
                proof {
                    assert forall|i: int| 0 <= i < deps@.len() implies (#[trigger] deps@[i])@
                        != pkg.name@ by {
                        if deps@[i]@ == pkg.name@ {
                            assert(st0[0]@ == deps@[i]@);
                            assert(seq_has_name(st0, deps@[i]@));
                        }
                    }
                }
                Ok(deps)
            },
            Err(e) => Err(e),
        }
    }

    /// One step of the walk: process every dependency name of `pkg`, which
    /// sits on top of the stack, growing `deps` and `done` while keeping the
    /// resolver invariant, and restoring the stack on success.
    #[verifier::rlimit(100)]
    fn resolve_into(
        &self,
        pkg: &PackageInfo,
        deps: &mut Vec<String>,
        done: &mut Vec<String>,
        stack: &mut Vec<String>,
    ) -> (r: Result<(), Error>)
        requires
            self.wf(),
            self.has_pkg(pkg.name@),
            pkg@ == self.pkg_of(pkg.name@),
            self.resolver_inv(old(deps)@, old(done)@),
            self.chain_ok(old(stack)@),
            old(stack)@.len() >= 1,
            old(stack)@[old(stack)@.len() - 1]@ == pkg.name@,
        ensures
            match r {
                Ok(()) => {
                    &&& final(stack)@ == old(stack)@
                    &&& self.resolver_inv(final(deps)@, final(done)@)
                    &&& old(deps)@.len() <= final(deps)@.len()
                    &&& forall|i: int|
                        0 <= i < old(deps)@.len() ==> (#[trigger] final(deps)@[i]) == old(deps)@[i]
                    &&& forall|i: int|
                        old(deps)@.len() <= i < final(deps)@.len() ==> !seq_has_name(
                            old(stack)@,
                            (#[trigger] final(deps)@[i])@,
                        )
                    &&& forall|nm: Seq<char>|
                        seq_has_name(old(done)@, nm) ==> seq_has_name(final(done)@, nm)
                    &&& forall|nm: Seq<char>|
                        seq_has_name(final(done)@, nm) ==> seq_has_name(old(done)@, nm)
                            || !seq_has_name(old(stack)@, nm)
                    &&& forall|k: int|
                        0 <= k < pkg.depends@.len() ==> seq_has_name(
                            final(done)@,
                            (#[trigger] pkg.depends@[k])@,
                        )
                },
                Err(e) => e matches Error::CycleDetected { cycle } && self.genuine_cycle(cycle@),
            },
        decreases free_count(self.packages@, old(stack)@),
    {
        let ghost st0 = old(stack)@;
        let ghost ds0 = old(deps)@;
        let ghost dn0 = old(done)@;
        let n = pkg.depends.len();
        for m in 0..n
            invariant
                n == pkg.depends@.len(),
                st0 == old(stack)@,
                ds0 == old(deps)@,
                dn0 == old(done)@,
                self.wf(),
                self.has_pkg(pkg.name@),
                pkg@ == self.pkg_of(pkg.name@),
                self.chain_ok(st0),
                st0.len() >= 1,
                st0[st0.len() - 1]@ == pkg.name@,
                stack@ == st0,
                self.resolver_inv(deps@, done@),
                ds0.len() <= deps@.len(),
                forall|i: int| 0 <= i < ds0.len() ==> (#[trigger] deps@[i]) == ds0[i],
                forall|i: int|
                    ds0.len() <= i < deps@.len() ==> !seq_has_name(
                        st0,
                        (#[trigger] deps@[i])@,
                    ),
                forall|nm: Seq<char>| seq_has_name(dn0, nm) ==> seq_has_name(done@, nm),
                forall|nm: Seq<char>|
                    seq_has_name(done@, nm) ==> seq_has_name(dn0, nm) || !seq_has_name(st0, nm),
                forall|k: int|
                    0 <= k < m ==> seq_has_name(done@, (#[trigger] pkg.depends@[k])@),
        {
            let dep_name = &pkg.depends[m];
            proof {
                assert(pkg@.depends[m as int] == pkg.depends@[m as int]@);
            }
            if contains_str(done, dep_name) {
            } else if let Some(i0) = find_str(stack, dep_name) {
                let cyc = copy_tail(stack, i0);
                proof {
                    assert(pkg@.depends.contains(cyc@[0]@)) by {
                        assert(pkg@.depends[m as int] == cyc@[0]@);
                    }
                    assert(cyc@[cyc@.len() - 1]@ == st0[st0.len() - 1]@);
                    assert forall|i: int| 0 <= i < cyc@.len() - 1 implies self.pkg_of(
                        (#[trigger] cyc@[i])@,
                    ).depends.contains(cyc@[i + 1]@) by {
                        assert(cyc@[i]@ == st0[i0 + i]@);
                        assert(cyc@[i + 1]@ == st0[i0 + i + 1]@);
                    }
                    assert(self.genuine_cycle(cyc@));
                }
                return Err(Error::CycleDetected { cycle: cyc });
            } else {
                match self.find_package(dep_name.as_str()) {
                    Err(_) => {
                        let ghost dnpre = done@;
                        done.push(dep_name.clone());
                        proof {
                            assert forall|nm: Seq<char>| true implies (seq_has_name(done@, nm)
                                <==> (seq_has_name(dnpre, nm) || nm == dep_name@)) by {
                                lemma_has_name_push(dnpre, done@[done@.len() - 1], nm);
                                assert(done@ == dnpre.push(done@[done@.len() - 1]));
                            }
                            assert(!self.needs_install(dep_name@));
                        }
                    },
                    Ok(dp) => {
                        stack.push(dep_name.clone());
                        proof {
                            assert(stack@ =~= st0.push(stack@[stack@.len() - 1]));
                            assert(stack@[stack@.len() - 1]@ == dep_name@);
                            assert(self.pkg_of(st0[st0.len() - 1]@).depends.contains(
                                stack@[stack@.len() - 1]@,
                            )) by {
                                assert(pkg@.depends[m as int] == dep_name@);
                            }
                            assert(self.chain_ok(stack@));
                            lemma_measure_decreases(*self, st0, stack@[stack@.len() - 1]);
                            assert(free_count(self.packages@, stack@) < free_count(
                                self.packages@,
                                old(stack)@,
                            ));
                        }
                        let ghost stcall = stack@;
                        let ghost dncall = done@;
                        let r = self.resolve_into(&dp, deps, done, stack);
                        if let Err(e) = r {
                            return Err(e);
                        }
                        let _popped = stack.pop();
                        proof {
                            assert(stack@ =~= st0);
                        }
                        let ghost dspre = deps@;
                        let ghost dnpre = done@;
                        proof {
                            // the dependency itself is not yet done: it sat on
                            // the stack throughout its own processing
                            assert(seq_has_name(stcall, dep_name@)) by {
                                assert(stcall[stcall.len() - 1]@ == dep_name@);
                            }
                            assert(!seq_has_name(dnpre, dep_name@)) by {
                                if seq_has_name(dnpre, dep_name@) {
                                    assert(seq_has_name(dncall, dep_name@) || !seq_has_name(
                                        stcall,
                                        dep_name@,
                                    ));
                                }
                            }
                        }
                        let installed_already = self.get_installed(dep_name.as_str()).is_some();
                        if !installed_already {
                            deps.push(dep_name.clone());
                        }
                        done.push(dep_name.clone());
                        proof {
                            assert forall|nm: Seq<char>| true implies (seq_has_name(done@, nm)
                                <==> (seq_has_name(dnpre, nm) || nm == dep_name@)) by {
                                lemma_has_name_push(dnpre, done@[done@.len() - 1], nm);
                                assert(done@ == dnpre.push(done@[done@.len() - 1]));
                            }
                            if !installed_already {
                                assert(deps@ == dspre.push(deps@[deps@.len() - 1]));
                                assert(deps@[deps@.len() - 1]@ == dep_name@);
                                assert forall|nm: Seq<char>| true implies (seq_has_name(
                                    deps@,
                                    nm,
                                ) <==> (seq_has_name(dspre, nm) || nm == dep_name@)) by {
                                    lemma_has_name_push(dspre, deps@[deps@.len() - 1], nm);
                                }
                                // the new entry was not in deps before: deps
                                // entries are done, and the dependency was not
                                assert(!seq_has_name(dspre, dep_name@)) by {
                                    if seq_has_name(dspre, dep_name@) {
                                        let i = choose|i: int|
                                            0 <= i < dspre.len() && (#[trigger] dspre[i])@
                                                == dep_name@;
                                        assert(seq_has_name(dnpre, dspre[i]@));
                                    }
                                }
                                // install order for the new entry: each of its
                                // needed dependencies is already in deps
                                assert forall|k: int|
                                    0 <= k < self.pkg_of(dep_name@).depends.len()
                                        && self.needs_install(
                                        #[trigger] self.pkg_of(dep_name@).depends[k],
                                    ) implies seq_has_name(
                                    dspre,
                                    self.pkg_of(dep_name@).depends[k],
                                ) by {
                                    assert(dp@ == self.pkg_of(dep_name@));
                                    assert(dp.depends@[k]@ == self.pkg_of(dep_name@).depends[k]);
                                    assert(seq_has_name(dnpre, dp.depends@[k]@));
                                    let i = choose|i: int|
                                        0 <= i < dnpre.len() && (#[trigger] dnpre[i])@
                                            == dp.depends@[k]@;
                                    assert(seq_has_name(dspre, dnpre[i]@));
                                }
                                assert(self.install_ordered(deps@)) by {
                                    assert forall|j: int, k: int|
                                        0 <= j < deps@.len() && 0 <= k < self.pkg_of(
                                            deps@[j]@,
                                        ).depends.len() && self.needs_install(
                                            #[trigger] self.dep_at(deps@, j, k),
                                        ) implies exists|i: int|
                                        0 <= i < j && (#[trigger] deps@[i])@ == self.dep_at(
                                            deps@,
                                            j,
                                            k,
                                        ) by {
                                        if j < dspre.len() {
                                            assert(deps@[j] == dspre[j]);
                                            assert(self.dep_at(dspre, j, k) == self.dep_at(
                                                deps@,
                                                j,
                                                k,
                                            ));
                                            let i = choose|i: int|
                                                0 <= i < j && (#[trigger] dspre[i])@ == self.dep_at(
                                                    dspre,
                                                    j,
                                                    k,
                                                );
                                            assert(deps@[i]@ == self.dep_at(deps@, j, k));
                                        } else {
                                            assert(deps@[j]@ == dep_name@);
                                            assert(seq_has_name(
                                                dspre,
                                                self.pkg_of(dep_name@).depends[k],
                                            ));
                                            let i = choose|i: int|
                                                0 <= i < dspre.len() && (#[trigger] dspre[i])@
                                                    == self.pkg_of(dep_name@).depends[k];
                                            assert(deps@[i]@ == self.dep_at(deps@, j, k));
                                        }
                                    }
                                }
                            }
                        }
                    },
                }
            }
            proof {
                assert(seq_has_name(done@, pkg.depends@[m as int]@));
            }
        }
        Ok(())
    }
}

/// Whether `x` occurs in `v`, compared by contents.
fn contains_str(v: &Vec<String>, x: &String) -> (r: bool)
    ensures
        r == seq_has_name(v@, x@),
{
    let n = v.len();
    for i in 0..n
        invariant
            n == v@.len(),
            forall|k: int| 0 <= k < i ==> (#[trigger] v@[k])@ != x@,
    {
        if v[i] == *x {
            return true;
        }
    }
    false
}

/// The first position of `x` in `v`, compared by contents.
fn find_str(v: &Vec<String>, x: &String) -> (r: Option<usize>)
    ensures
        match r {
            Some(i) => i < v@.len() && v@[i as int]@ == x@,
            None => !seq_has_name(v@, x@),
        },
{
    let n = v.len();
    for i in 0..n
        invariant
            n == v@.len(),
            forall|k: int| 0 <= k < i ==> (#[trigger] v@[k])@ != x@,
    {
        if v[i] == *x {
            return Some(i);
        }
    }
    None
}

/// The entries of `v` from position `from` on, cloned.
fn copy_tail(v: &Vec<String>, from: usize) -> (r: Vec<String>)
    requires
        from < v@.len(),
    ensures
        r@.len() == v@.len() - from,
        forall|t: int| 0 <= t < r@.len() ==> (#[trigger] r@[t])@ == v@[from + t]@,
{
    let mut out: Vec<String> = Vec::new();
    let n = v.len();
    for j in from..n
        invariant
            from <= j <= n == v@.len(),
            out@.len() == j - from,
            forall|t: int| 0 <= t < out@.len() ==> (#[trigger] out@[t])@ == v@[from + t]@,
    {
        out.push(v[j].clone());
    }
    out
}

} // verus!
