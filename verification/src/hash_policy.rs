//! Hash-verification policy: which packages must match a declared hash before
//! a resolved distribution is trusted, and under which checking mode.
//!
//! The strategy is built once from the declared requirement hashes. Markers
//! are applied beforehand: a declaration whose marker does not match the
//! current environment is excluded before the mapping is built. Build-time
//! constraints are never subject to the `Require` mode; when hash checking is
//! active at all they are checked under `Verify` only.

use vstd::prelude::*;

verus! {

broadcast use vstd::seq::Seq::filter_distributes_over_add;

/// Global hash-checking mode requested for a run.
#[derive(Clone, Copy, Debug, PartialEq, Eq, Structural)]
pub enum HashCheckingMode {
    /// Every resolved distribution must carry a declared, matching hash.
    Require,
    /// Declared hashes are checked, but packages without declarations pass.
    Verify,
}

/// One requirement, override, or constraint as the hash policy sees it: the
/// package name, whether its environment marker applies to the current
/// environment, and the hashes declared for it.
pub struct HashDeclaration {
    /// The package name the declaration is about.
    pub name: String,
    /// Whether the declaration's marker matches the current environment.
    pub applies: bool,
    /// The declared expected hashes, possibly empty.
    pub hashes: Vec<String>,
}

/// The mathematical content of a [`HashDeclaration`].
pub ghost struct HashDeclarationView {
    pub name: Seq<char>,
    pub applies: bool,
    pub hashes: Seq<Seq<char>>,
}

impl View for HashDeclaration {
    type V = HashDeclarationView;

    open spec fn view(&self) -> HashDeclarationView {
        HashDeclarationView {
            name: self.name@,
            applies: self.applies,
            hashes: self.hashes.deep_view(),
        }
    }
}

impl DeepView for HashDeclaration {
    type V = HashDeclarationView;

    open spec fn deep_view(&self) -> HashDeclarationView {
        self.view()
    }
}

/// Error raised while building a hash strategy.
#[derive(Debug)]
pub enum HashPolicyError {
    /// Under `Require` mode, the named package lacks declared hashes.
    MissingHashes(String),
}

/// The per-run hash-verification strategy: either no checking at all, or a
/// mapping from package names to expected hashes under a checking mode.
pub enum HashStrategy {
    /// No package is hash-checked.
    Disabled,
    /// The applicable declarations are checked under the given mode.
    Checked { mode: HashCheckingMode, declarations: Vec<HashDeclaration> },
}

/// The mathematical content of a [`HashStrategy`].
pub ghost enum HashStrategyView {
    Disabled,
    Checked { mode: HashCheckingMode, declarations: Seq<HashDeclarationView> },
}

impl View for HashStrategy {
    type V = HashStrategyView;

    open spec fn view(&self) -> HashStrategyView {
        match self {
            HashStrategy::Disabled => HashStrategyView::Disabled,
            HashStrategy::Checked { mode, declarations } => HashStrategyView::Checked {
                mode: *mode,
                declarations: declarations.deep_view(),
            },
        }
    }
}

/// Whether a declaration's marker matches the current environment.
pub open spec fn applies_pred() -> spec_fn(HashDeclarationView) -> bool {
    |d: HashDeclarationView| d.applies
}

/// Whether a declaration applies and declares no hash at all.
pub open spec fn lacking_pred() -> spec_fn(HashDeclarationView) -> bool {
    |d: HashDeclarationView| d.applies && d.hashes.len() == 0
}

/// Declarations whose marker matches the current environment.
pub open spec fn applicable(s: Seq<HashDeclarationView>) -> Seq<HashDeclarationView> {
    s.filter(applies_pred())
}

/// Applicable declarations that declare no hash at all.
pub open spec fn lacking(s: Seq<HashDeclarationView>) -> Seq<HashDeclarationView> {
    s.filter(lacking_pred())
}

/// The first matching declaration for a package name, if any.
pub open spec fn find_declaration(
    s: Seq<HashDeclarationView>,
    name: Seq<char>,
) -> Option<HashDeclarationView>
    decreases s.len(),
{
    if s.len() == 0 {
        None
    } else if s[0].name == name {
        Some(s[0])
    } else {
        find_declaration(s.drop_first(), name)
    }
}

/// Whether a strategy lets a distribution with the given digest through.
///
/// Under `Require`, a package without a declaration (or with a declaration
/// that names no hash) is rejected; under `Verify`, such a package passes:
/// verification only rejects on mismatch, never on absence. A package with
/// declared hashes passes exactly when the digest is present and among them.
pub open spec fn permits_spec(
    strategy: HashStrategyView,
    name: Seq<char>,
    digest: Option<Seq<char>>,
) -> bool {
    match strategy {
        HashStrategyView::Disabled => true,
        HashStrategyView::Checked { mode, declarations } => match find_declaration(
            applicable(declarations),
            name,
        ) {
            Option::None => mode == HashCheckingMode::Verify,
            Option::Some(d) => {
                if d.hashes.len() == 0 {
                    mode == HashCheckingMode::Verify
                } else {
                    match digest {
                        Option::Some(g) => d.hashes.contains(g),
                        Option::None => false,
                    }
                }
            },
        },
    }
}

impl HashStrategy {
    /// Build the strategy for a run from the declared requirement, override,
    /// and constraint hashes, under the given checking mode.
    ///
    /// Requirements and overrides come first, then constraints. Under
    /// `Require`, the first applicable declaration without hashes is an
    /// error, reported before any network or build work can start.
    pub fn from_requirements(
        requirements: &Vec<HashDeclaration>,
        constraints: &Vec<HashDeclaration>,
        mode: HashCheckingMode,
    ) -> (r: Result<HashStrategy, HashPolicyError>)
        ensures
            r is Err <==> mode == HashCheckingMode::Require && lacking(
                requirements.deep_view() + constraints.deep_view(),
            ).len() > 0,
            r matches Err(HashPolicyError::MissingHashes(n)) ==> n@ == lacking(
                requirements.deep_view() + constraints.deep_view(),
            )[0].name,
            r matches Ok(s) ==> s@ == (HashStrategyView::Checked {
                mode,
                declarations: applicable(requirements.deep_view() + constraints.deep_view()),
            }),
    {
        let ghost all = requirements.deep_view() + constraints.deep_view();
        let mut declarations: Vec<HashDeclaration> = Vec::new();
        let mut i: usize = 0;
        while i < requirements.len()
            invariant
                i <= requirements.len(),
                all == requirements.deep_view() + constraints.deep_view(),
                declarations.deep_view() =~= applicable(all.take(i as int)),
                mode == HashCheckingMode::Require ==> lacking(all.take(i as int)).len() == 0,
            decreases requirements.len() - i,
        {
            let ghost pos = i as int;
            proof {
                assert(all[pos] == requirements.deep_view()[pos]);
            }
            let d = &requirements[i];
            if hash_step(d, mode, Ghost(all), Ghost(pos), &mut declarations) {
                return Err(HashPolicyError::MissingHashes(d.name.clone()));
            }
            i = i + 1;
        }
        let ghost base = requirements.deep_view().len() as int;
        let mut j: usize = 0;
        while j < constraints.len()
            invariant
                j <= constraints.len(),
                base == requirements.deep_view().len(),
                all == requirements.deep_view() + constraints.deep_view(),
                declarations.deep_view() =~= applicable(all.take(base + j as int)),
                mode == HashCheckingMode::Require ==> lacking(
                    all.take(base + j as int),
                ).len() == 0,
            decreases constraints.len() - j,
        {
            let ghost pos = base + j as int;
            proof {
                assert(all[pos] == constraints.deep_view()[j as int]);
            }
            let d = &constraints[j];
            if hash_step(d, mode, Ghost(all), Ghost(pos), &mut declarations) {
                return Err(HashPolicyError::MissingHashes(d.name.clone()));
            }
            j = j + 1;
        }
        proof {
            assert(all.take(base + constraints.deep_view().len() as int) =~= all);
        }
        Ok(HashStrategy::Checked { mode, declarations })
    }

    /// Build the strategy when checking may be absent: no mode means no
    /// package is hash-checked at all.
    pub fn from_checking(
        checking: Option<HashCheckingMode>,
        requirements: &Vec<HashDeclaration>,
        constraints: &Vec<HashDeclaration>,
    ) -> (r: Result<HashStrategy, HashPolicyError>)
        ensures
            checking is None ==> (r matches Ok(s) && s@ == HashStrategyView::Disabled),
            checking matches Some(mode) ==> {
                &&& (r is Err <==> mode == HashCheckingMode::Require && lacking(
                    requirements.deep_view() + constraints.deep_view(),
                ).len() > 0)
                &&& (r matches Err(HashPolicyError::MissingHashes(n)) ==> n@ == lacking(
                    requirements.deep_view() + constraints.deep_view(),
                )[0].name)
                &&& (r matches Ok(s) ==> s@ == (HashStrategyView::Checked {
                    mode,
                    declarations: applicable(
                        requirements.deep_view() + constraints.deep_view(),
                    ),
                }))
            },
    {
        match checking {
            Option::None => Ok(HashStrategy::Disabled),
            Option::Some(mode) => HashStrategy::from_requirements(requirements, constraints, mode),
        }
    }

    /// Build the strategy for build-time constraints. When checking is active
    /// at all, build constraints are enforced under `Verify`, never under
    /// `Require`: requiring hashes for build-time dependencies would be too
    /// strict. Hence building this strategy never fails, whatever the
    /// declarations lack.
    pub fn for_build_constraints(
        build_constraints: &Vec<HashDeclaration>,
        checking_active: bool,
    ) -> (r: HashStrategy)
        ensures
            !checking_active ==> r@ == HashStrategyView::Disabled,
            checking_active ==> r@ == (HashStrategyView::Checked {
                mode: HashCheckingMode::Verify,
                declarations: applicable(build_constraints.deep_view()),
            }),
            !(r@ matches HashStrategyView::Checked { mode, .. } && (mode
                == HashCheckingMode::Require)),
    {
        if checking_active {
            let empty: Vec<HashDeclaration> = Vec::new();
            proof {
                assert(empty.deep_view() + build_constraints.deep_view()
                    =~= build_constraints.deep_view());
            }
            let r = HashStrategy::from_requirements(
                &empty,
                build_constraints,
                HashCheckingMode::Verify,
            );
            match r {
                Ok(s) => s,
                Err(_) => {
                    proof {
                        assert(false);
                    }
                    HashStrategy::Disabled
                },
            }
        } else {
            HashStrategy::Disabled
        }
    }

    /// Whether this strategy lets a distribution through: the package's
    /// digest, if any, against the declarations.
    pub fn permits(&self, name: &str, digest: Option<&String>) -> (r: bool)
        ensures
            r == permits_spec(
                self@,
                name@,
                match digest {
                    Option::Some(g) => Option::Some(g@),
                    Option::None => Option::<Seq<char>>::None,
                },
            ),
    {
        match self {
            HashStrategy::Disabled => true,
            HashStrategy::Checked { mode, declarations } => {
                let found = find_applicable(declarations, name);
                match found {
                    Option::None => matches!(mode, HashCheckingMode::Verify),
                    Option::Some(k) => {
                        let d = &declarations[k];
                        if d.hashes.len() == 0 {
                            proof {
                                assert(declarations.deep_view()[k as int].hashes.len() == 0);
                            }
                            matches!(mode, HashCheckingMode::Verify)
                        } else {
                            match digest {
                                Option::Some(g) => contains_string(&d.hashes, g),
                                Option::None => false,
                            }
                        }
                    },
                }
            },
        }
    }
}

/// Find the index of the first applicable declaration with the given name,
/// mirroring [`find_declaration`] over the applicable subsequence.
fn find_applicable(declarations: &Vec<HashDeclaration>, name: &str) -> (r: Option<usize>)
    ensures
        match r {
            Option::Some(k) => {
                &&& k < declarations.deep_view().len()
                &&& declarations.deep_view()[k as int].applies
                &&& find_declaration(applicable(declarations.deep_view()), name@) == Some(
                    declarations.deep_view()[k as int],
                )
            },
            Option::None => find_declaration(applicable(declarations.deep_view()), name@)
                is None,
        },
{
    let ghost views = declarations.deep_view();
    proof {
        assert(views.skip(0) =~= views);
    }
    let mut i: usize = 0;
    while i < declarations.len()
        invariant
            i <= declarations.len(),
            views == declarations.deep_view(),
            find_declaration(applicable(views), name@) == find_declaration(
                applicable(views.skip(i as int)),
                name@,
            ),
        decreases declarations.len() - i,
    {
        proof {
            lemma_skip_one_more(views, i as int);
            Seq::filter_distributes_over_add(
                seq![views[i as int]],
                views.skip(i as int + 1),
                applies_pred(),
            );
            crate::strutil::lemma_filter_singleton(views[i as int], applies_pred());
        }
        let d = &declarations[i];
        if d.applies {
            proof {
                assert(applicable(views.skip(i as int)) == seq![views[i as int]] + applicable(
                    views.skip(i as int + 1),
                ));
            }
            if crate::strutil::str_eq(d.name.as_str(), name) {
                proof {
                    let rest = applicable(views.skip(i as int));
                    assert(rest[0] == views[i as int]);
                }
                return Some(i);
            }
            proof {
                let rest = applicable(views.skip(i as int));
                assert(rest[0] == views[i as int]);
                assert(rest.drop_first() =~= applicable(views.skip(i as int + 1)));
            }
        } else {
            proof {
                assert(applicable(views.skip(i as int)) =~= applicable(
                    views.skip(i as int + 1),
                ));
            }
        }
        i = i + 1;
    }
    proof {
        assert(views.skip(views.len() as int) =~= Seq::<HashDeclarationView>::empty());
        assert(applicable(views.skip(views.len() as int)) =~= Seq::<
            HashDeclarationView,
        >::empty());
        reveal(Seq::filter);
    }
    None
}

/// Whether a list of strings holds the given character sequence.
fn contains_string(v: &Vec<String>, x: &String) -> (r: bool)
    ensures
        r == v.deep_view().contains(x@),
{
    let mut i: usize = 0;
    while i < v.len()
        invariant
            i <= v.len(),
            forall|j: int| 0 <= j < i ==> v.deep_view()[j] != x@,
        decreases v.len() - i,
    {
        if crate::strutil::str_eq(v[i].as_str(), x.as_str()) {
            proof {
                assert(v.deep_view()[i as int] == x@);
            }
            return true;
        }
        i = i + 1;
    }
    false
}


/// One step of strategy building: extend the gathered declarations by the
/// declaration at `pos`, or report that it lacks hashes under `Require`.
fn hash_step(
    d: &HashDeclaration,
    mode: HashCheckingMode,
    Ghost(all): Ghost<Seq<HashDeclarationView>>,
    Ghost(pos): Ghost<int>,
    declarations: &mut Vec<HashDeclaration>,
) -> (missing: bool)
    requires
        0 <= pos < all.len(),
        all[pos] == d@,
        old(declarations).deep_view() =~= applicable(all.take(pos)),
        mode == HashCheckingMode::Require ==> lacking(all.take(pos)).len() == 0,
    ensures
        missing ==> {
            &&& mode == HashCheckingMode::Require
            &&& lacking(all).len() > 0
            &&& lacking(all)[0].name == d@.name
        },
        !missing ==> {
            &&& final(declarations).deep_view() =~= applicable(all.take(pos + 1))
            &&& (mode == HashCheckingMode::Require ==> lacking(all.take(pos + 1)).len() == 0)
        },
{
    let ghost applies_p = applies_pred();
    let ghost lacking_p = lacking_pred();
    proof {
        crate::strutil::lemma_filter_take_one_more(all, pos, applies_p);
        crate::strutil::lemma_filter_take_one_more(all, pos, lacking_p);
    }
    if d.applies {
        if matches!(mode, HashCheckingMode::Require) && d.hashes.len() == 0 {
            proof {
                crate::strutil::lemma_filter_split(all, pos + 1, lacking_p);
                assert(lacking(all.take(pos + 1)) =~= seq![all[pos]]);
                assert(lacking(all)[0] == all[pos]);
            }
            return true;
        }
        let c = clone_declaration(d);
        declarations.push(c);
        proof {
            let dv = final(declarations).deep_view();
            let goal = applicable(all.take(pos + 1));
            assert(goal =~= applicable(all.take(pos)) + seq![all[pos]]);
            assert forall|k: int| 0 <= k < dv.len() implies dv[k] == goal[k] by {
                assert(dv[k] == final(declarations)@[k]@);
                if k < dv.len() - 1 {
                    assert(final(declarations)@[k] == old(declarations)@[k]);
                }
            }
            assert(dv =~= goal);
        }
        false
    } else {
        proof {
            assert(applicable(all.take(pos + 1)) =~= applicable(all.take(pos)));
            assert(lacking(all.take(pos + 1)) =~= lacking(all.take(pos)));
        }
        false
    }
}

/// Clone one declaration, keeping its mathematical content.
fn clone_declaration(d: &HashDeclaration) -> (r: HashDeclaration)
    ensures
        r@ == d@,
{
    HashDeclaration {
        name: d.name.clone(),
        applies: d.applies,
        hashes: crate::strutil::clone_strings(&d.hashes),
    }
}

/// Taking one more element appends that element.
proof fn lemma_take_one_more<A>(s: Seq<A>, i: int)
    requires
        0 <= i < s.len(),
    ensures
        s.take(i + 1) == s.take(i) + seq![s[i]],
{
    assert(s.take(i + 1) =~= s.take(i) + seq![s[i]]);
}

/// Skipping one fewer element prepends that element.
proof fn lemma_skip_one_more<A>(s: Seq<A>, i: int)
    requires
        0 <= i < s.len(),
    ensures
        s.skip(i) == seq![s[i]] + s.skip(i + 1),
{
    assert(s.skip(i) =~= seq![s[i]] + s.skip(i + 1));
}

} // verus!
