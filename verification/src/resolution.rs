//! The resolver collaborator's output as the pipeline sees it: a resolution
//! graph of concrete package/version choices, of which only the installable
//! ones are fetched or built.

use vstd::prelude::*;

verus! {

broadcast use vstd::seq_lib::group_filter_ensures;

/// Whether a resolved distribution still needs to be obtained.
#[derive(Clone, Copy, Debug, PartialEq, Eq, Structural)]
pub enum SourceKind {
    /// The distribution must be fetched or built.
    Installable,
    /// The distribution is already installed; nothing to obtain.
    AlreadyInstalled,
}

/// One concrete package/version choice from the resolution graph.
pub struct ResolvedDistribution {
    /// The package name.
    pub name: String,
    /// The chosen version.
    pub version: String,
    /// Installable, or already installed.
    pub source_kind: SourceKind,
}

/// The mathematical content of a [`ResolvedDistribution`].
pub ghost struct ResolvedDistributionView {
    pub name: Seq<char>,
    pub version: Seq<char>,
    pub source_kind: SourceKind,
}

impl View for ResolvedDistribution {
    type V = ResolvedDistributionView;

    open spec fn view(&self) -> ResolvedDistributionView {
        ResolvedDistributionView {
            name: self.name@,
            version: self.version@,
            source_kind: self.source_kind,
        }
    }
}

impl DeepView for ResolvedDistribution {
    type V = ResolvedDistributionView;

    open spec fn deep_view(&self) -> ResolvedDistributionView {
        self.view()
    }
}

/// A resolution graph: a consistent set of concrete package/version choices.
/// The pipeline only reads it.
pub struct Resolution {
    /// The resolved distributions, in the resolver's order.
    pub distributions: Vec<ResolvedDistribution>,
}

/// Whether a distribution is installable.
pub open spec fn installable_pred() -> spec_fn(ResolvedDistributionView) -> bool {
    |d: ResolvedDistributionView| d.source_kind == SourceKind::Installable
}

/// The installable portion of a distribution list, in order.
pub open spec fn installable_of(s: Seq<ResolvedDistributionView>) -> Seq<
    ResolvedDistributionView,
> {
    s.filter(installable_pred())
}

/// Two distributions are the same artifact when name and version agree.
pub open spec fn same_distribution(
    a: ResolvedDistributionView,
    b: ResolvedDistributionView,
) -> bool {
    a.name == b.name && a.version == b.version
}

impl Resolution {
    /// The distributions that must be fetched or built: the installable ones,
    /// in the resolver's order; already-installed ones are skipped.
    pub fn installable_distributions(&self) -> (r: Vec<ResolvedDistribution>)
        ensures
            r.deep_view() == installable_of(self.distributions.deep_view()),
    {
        let ghost views = self.distributions.deep_view();
        let mut r: Vec<ResolvedDistribution> = Vec::new();
        proof {
            reveal(Seq::filter);
            assert(views.take(0) =~= Seq::<ResolvedDistributionView>::empty());
            assert(r.deep_view() =~= views.take(0).filter(installable_pred()));
        }
        let mut i: usize = 0;
        while i < self.distributions.len()
            invariant
                i <= self.distributions.len(),
                views == self.distributions.deep_view(),
                r.deep_view() == views.take(i as int).filter(installable_pred()),
            decreases self.distributions.len() - i,
        {
            proof {
                crate::strutil::lemma_filter_take_one_more(views, i as int, installable_pred());
            }
            let d = &self.distributions[i];
            if matches!(d.source_kind, SourceKind::Installable) {
                let c = clone_distribution(d);
                push_distribution(&mut r, c);
                proof {
                    assert(r.deep_view() =~= views.take(i as int + 1).filter(installable_pred()));
                }
            } else {
                proof {
                    assert(r.deep_view() =~= views.take(i as int + 1).filter(installable_pred()));
                }
            }
            i = i + 1;
        }
        proof {
            assert(views.take(views.len() as int) =~= views);
        }
        r
    }
}

/// Clone one resolved distribution, keeping its mathematical content.
pub fn clone_distribution(d: &ResolvedDistribution) -> (r: ResolvedDistribution)
    ensures
        r@ == d@,
{
    ResolvedDistribution {
        name: d.name.clone(),
        version: d.version.clone(),
        source_kind: d.source_kind,
    }
}

/// Push one distribution, tracking the deep view.
pub fn push_distribution(v: &mut Vec<ResolvedDistribution>, d: ResolvedDistribution)
    ensures
        final(v).deep_view() == old(v).deep_view() + seq![d@],
{
    let ghost before = v.deep_view();
    let ghost dv = d@;
    v.push(d);
    proof {
        let now = v.deep_view();
        assert forall|j: int| 0 <= j < now.len() implies now[j] == (before + seq![dv])[j] by {
            assert(now[j] == v@[j]@);
            if j < before.len() {
                assert(before[j] == old(v)@[j]@);
            }
        }
        assert(now =~= before + seq![dv]);
    }
}

} // verus!
