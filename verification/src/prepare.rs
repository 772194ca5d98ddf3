//! Artifact preparation: turning installable resolved distributions into
//! prepared artifacts staged in a cache.
//!
//! The fetch or build itself is outside work; this module holds what can be
//! decided: which distributions must be fetched (each identity exactly once),
//! the in-flight registry that de-duplicates concurrent requests for the same
//! artifact, the per-artifact state machine, and the collection of settled
//! outcomes into the pipeline's terminal result. A failure for one artifact
//! never touches the registry entries of its siblings; it surfaces once all
//! outcomes have settled, as the first terminal error.

use vstd::prelude::*;
use vstd::string::StringExecFns;

use crate::resolution::{
    installable_of, installable_pred, ResolvedDistribution, ResolvedDistributionView, SourceKind,
};

verus! {

/// What form a prepared artifact takes in the cache.
#[derive(Clone, Copy, Debug, PartialEq, Eq, Structural)]
pub enum OriginKind {
    /// A single wheel file.
    WheelFile,
    /// An unpacked wheel directory.
    UnpackedWheelDirectory,
}

/// A fetched or built distribution staged in the cache, not yet in its final
/// deliverable form.
pub struct PreparedArtifact {
    /// The artifact's canonical wheel filename.
    pub filename: String,
    /// Where the artifact sits in the cache.
    pub cache_location: String,
    /// Whether the cache holds a wheel file or an unpacked directory.
    pub origin_kind: OriginKind,
}

/// The mathematical content of a [`PreparedArtifact`].
pub ghost struct PreparedArtifactView {
    pub filename: Seq<char>,
    pub cache_location: Seq<char>,
    pub origin_kind: OriginKind,
}

impl View for PreparedArtifact {
    type V = PreparedArtifactView;

    open spec fn view(&self) -> PreparedArtifactView {
        PreparedArtifactView {
            filename: self.filename@,
            cache_location: self.cache_location@,
            origin_kind: self.origin_kind,
        }
    }
}

impl DeepView for PreparedArtifact {
    type V = PreparedArtifactView;

    open spec fn deep_view(&self) -> PreparedArtifactView {
        self.view()
    }
}

/// Clone one prepared artifact, keeping its mathematical content.
pub fn clone_artifact(a: &PreparedArtifact) -> (r: PreparedArtifact)
    ensures
        r@ == a@,
{
    PreparedArtifact {
        filename: a.filename.clone(),
        cache_location: a.cache_location.clone(),
        origin_kind: a.origin_kind,
    }
}

/// A fetch or build failure, attributed to the originating distribution.
#[derive(Debug)]
pub struct PrepareError {
    /// The name of the distribution whose preparation failed.
    pub distribution: String,
    /// What went wrong.
    pub message: String,
}

/// The mathematical content of a [`PrepareError`].
pub ghost struct PrepareErrorView {
    pub distribution: Seq<char>,
    pub message: Seq<char>,
}

impl View for PrepareError {
    type V = PrepareErrorView;

    open spec fn view(&self) -> PrepareErrorView {
        PrepareErrorView { distribution: self.distribution@, message: self.message@ }
    }
}

/// Clone one preparation error.
pub fn clone_prepare_error(e: &PrepareError) -> (r: PrepareError)
    ensures
        r@ == e@,
{
    PrepareError { distribution: e.distribution.clone(), message: e.message.clone() }
}

/// The life of one artifact through the pipeline. No transition goes
/// backward; `Failed` is terminal.
#[derive(Clone, Copy, Debug, PartialEq, Eq, Structural)]
pub enum ArtifactState {
    /// Chosen by the resolver, not yet worked on.
    Resolved,
    /// A fetch or build is under way.
    Preparing,
    /// Staged in the cache.
    Prepared,
    /// Being written to its final deliverable form.
    Materializing,
    /// Delivered.
    Materialized,
    /// Fetch, build, or write failed; reported once, then final.
    Failed,
}

/// What can happen to one artifact.
#[derive(Clone, Copy, Debug, PartialEq, Eq, Structural)]
pub enum ArtifactEvent {
    /// Its fetch or build starts.
    StartPrepare,
    /// Its fetch or build succeeds.
    FinishPrepare,
    /// Its fetch or build fails.
    FailPrepare,
    /// Its materialization starts.
    StartMaterialize,
    /// Its materialization succeeds.
    FinishMaterialize,
    /// Its materialization fails.
    FailMaterialize,
}

/// How far along the state machine a state is; transitions only increase it.
pub open spec fn state_rank(s: ArtifactState) -> int {
    match s {
        ArtifactState::Resolved => 0,
        ArtifactState::Preparing => 1,
        ArtifactState::Prepared => 2,
        ArtifactState::Materializing => 3,
        ArtifactState::Materialized => 4,
        ArtifactState::Failed => 5,
    }
}

/// The artifact state machine: the next state for an event, or nothing where
/// the event is not admissible in the state.
pub fn artifact_step(state: ArtifactState, event: ArtifactEvent) -> (r: Option<ArtifactState>)
    ensures
        r == artifact_step_spec(state, event),
{
    match (state, event) {
        (ArtifactState::Resolved, ArtifactEvent::StartPrepare) => Some(ArtifactState::Preparing),
        (ArtifactState::Preparing, ArtifactEvent::FinishPrepare) => Some(ArtifactState::Prepared),
        (ArtifactState::Preparing, ArtifactEvent::FailPrepare) => Some(ArtifactState::Failed),
        (ArtifactState::Prepared, ArtifactEvent::StartMaterialize) => Some(
            ArtifactState::Materializing,
        ),
        (ArtifactState::Materializing, ArtifactEvent::FinishMaterialize) => Some(
            ArtifactState::Materialized,
        ),
        (ArtifactState::Materializing, ArtifactEvent::FailMaterialize) => Some(
            ArtifactState::Failed,
        ),
        _ => None,
    }
}

/// The transition table of the artifact state machine.
pub open spec fn artifact_step_spec(state: ArtifactState, event: ArtifactEvent) -> Option<
    ArtifactState,
> {
    match (state, event) {
        (ArtifactState::Resolved, ArtifactEvent::StartPrepare) => Some(ArtifactState::Preparing),
        (ArtifactState::Preparing, ArtifactEvent::FinishPrepare) => Some(ArtifactState::Prepared),
        (ArtifactState::Preparing, ArtifactEvent::FailPrepare) => Some(ArtifactState::Failed),
        (ArtifactState::Prepared, ArtifactEvent::StartMaterialize) => Some(
            ArtifactState::Materializing,
        ),
        (ArtifactState::Materializing, ArtifactEvent::FinishMaterialize) => Some(
            ArtifactState::Materialized,
        ),
        (ArtifactState::Materializing, ArtifactEvent::FailMaterialize) => Some(
            ArtifactState::Failed,
        ),
        _ => None,
    }
}

/// No artifact moves backward, and `Failed` is terminal: every admissible
/// transition strictly increases the state's rank, and no event leaves
/// `Failed`.
pub proof fn lemma_artifact_state_monotone(state: ArtifactState, event: ArtifactEvent)
    ensures
        artifact_step_spec(state, event) matches Some(next) ==> state_rank(next) > state_rank(
            state,
        ),
        state == ArtifactState::Failed ==> artifact_step_spec(state, event) is None,
{
}

/// One slot of the in-flight registry: a distribution identity and how far
/// its single fetch/build has come.
pub struct InFlightEntry {
    /// The distribution name.
    pub name: String,
    /// The distribution version.
    pub version: String,
    /// Running, or settled with its result.
    pub slot: PrepareSlot,
}

/// Running, or settled.
pub enum PrepareSlot {
    /// The single fetch/build for this identity is under way.
    InFlight,
    /// The single fetch/build settled; every requester sees this result.
    Settled(Result<PreparedArtifact, PrepareError>),
}

/// The mathematical content of an [`InFlightEntry`].
pub ghost struct InFlightEntryView {
    pub name: Seq<char>,
    pub version: Seq<char>,
    pub slot: PrepareSlotView,
}

/// The mathematical content of a [`PrepareSlot`].
pub ghost enum PrepareSlotView {
    InFlight,
    Settled(Result<PreparedArtifactView, PrepareErrorView>),
}

impl View for PrepareSlot {
    type V = PrepareSlotView;

    open spec fn view(&self) -> PrepareSlotView {
        match self {
            PrepareSlot::InFlight => PrepareSlotView::InFlight,
            PrepareSlot::Settled(Result::Ok(a)) => PrepareSlotView::Settled(Result::Ok(a@)),
            PrepareSlot::Settled(Result::Err(e)) => PrepareSlotView::Settled(Result::Err(e@)),
        }
    }
}

impl View for InFlightEntry {
    type V = InFlightEntryView;

    open spec fn view(&self) -> InFlightEntryView {
        InFlightEntryView { name: self.name@, version: self.version@, slot: self.slot@ }
    }
}

impl DeepView for InFlightEntry {
    type V = InFlightEntryView;

    open spec fn deep_view(&self) -> InFlightEntryView {
        self.view()
    }
}

/// Whether a registry state holds the given distribution identity.
pub open spec fn has_key(s: Seq<InFlightEntryView>, name: Seq<char>, version: Seq<char>) -> bool {
    exists|i: int| 0 <= i < s.len() && entry_has_key(s[i], name, version)
}

/// Whether one entry carries the given identity.
pub open spec fn entry_has_key(
    e: InFlightEntryView,
    name: Seq<char>,
    version: Seq<char>,
) -> bool {
    e.name == name && e.version == version
}

/// A registry is well formed when no identity occurs twice.
pub open spec fn registry_wf(s: Seq<InFlightEntryView>) -> bool {
    forall|i: int, j: int|
        0 <= i < j < s.len() ==> !entry_has_key(#[trigger] s[j], (#[trigger] s[i]).name, s[i].version)
}

/// Outcome of asking the registry for an identity: the caller either owns
/// the single fetch/build, or awaits the owner's result.
#[derive(Clone, Copy, Debug, PartialEq, Eq, Structural)]
pub enum AcquireOutcome {
    /// The identity was new; the caller performs the work.
    Owner,
    /// Someone already owns this identity; the caller awaits its result.
    Waiter,
}

/// The shared in-flight registry: one slot per distribution identity, so
/// that identical resolved distributions are fetched or built once.
pub struct InFlightRegistry {
    /// The slots, one per distinct identity.
    pub entries: Vec<InFlightEntry>,
}

impl InFlightRegistry {
    /// The registry's mathematical content.
    pub open spec fn view_entries(&self) -> Seq<InFlightEntryView> {
        self.entries.deep_view()
    }

    /// An empty registry: nothing in flight.
    pub fn new() -> (r: InFlightRegistry)
        ensures
            r.view_entries() =~= Seq::<InFlightEntryView>::empty(),
            registry_wf(r.view_entries()),
    {
        InFlightRegistry { entries: Vec::new() }
    }

    /// Ask for an identity. A new identity is registered in flight and owned
    /// by the caller; a known one leaves the registry unchanged and the
    /// caller waiting. Existing entries are never touched, so an identity
    /// once present stays present: at most one caller ever owns it.
    pub fn acquire(&mut self, name: &String, version: &String) -> (r: AcquireOutcome)
        requires
            registry_wf(old(self).view_entries()),
        ensures
            registry_wf(final(self).view_entries()),
            r == AcquireOutcome::Waiter <==> has_key(old(self).view_entries(), name@, version@),
            r == AcquireOutcome::Waiter ==> final(self).view_entries() == old(self).view_entries(),
            r == AcquireOutcome::Owner ==> final(self).view_entries() == old(self).view_entries()
                + seq![
                (InFlightEntryView {
                    name: name@,
                    version: version@,
                    slot: PrepareSlotView::InFlight,
                }),
            ],
            has_key(final(self).view_entries(), name@, version@),
    {
        let found = self.find_index(name, version);
        match found {
            Option::Some(_) => AcquireOutcome::Waiter,
            Option::None => {
                let ghost before = self.view_entries();
                let e = InFlightEntry {
                    name: name.clone(),
                    version: version.clone(),
                    slot: PrepareSlot::InFlight,
                };
                let ghost ev = e@;
                self.entries.push(e);
                proof {
                    let now = self.view_entries();
                    assert forall|j: int| 0 <= j < now.len() implies now[j] == (before
                        + seq![ev])[j] by {
                        assert(now[j] == self.entries@[j]@);
                        if j < before.len() {
                            assert(before[j] == old(self).entries@[j]@);
                        }
                    }
                    assert(now =~= before + seq![ev]);
                    assert(entry_has_key(now[now.len() - 1], name@, version@));
                    assert forall|i: int, j: int| 0 <= i < j < now.len() implies !entry_has_key(
                        #[trigger] now[j],
                        (#[trigger] now[i]).name,
                        now[i].version,
                    ) by {
                        if j < now.len() - 1 {
                            assert(now[i] == before[i] && now[j] == before[j]);
                        } else {
                            assert(now[i] == before[i]);
                            if entry_has_key(now[j], now[i].name, now[i].version) {
                                assert(entry_has_key(before[i], name@, version@));
                                assert(has_key(before, name@, version@));
                            }
                        }
                    }
                }
                AcquireOutcome::Owner
            },
        }
    }

    /// Settle the single fetch/build for an identity with its result, be it
    /// success or failure. Every other entry is left exactly as it was: a
    /// failure for one artifact never cancels or touches its siblings.
    pub fn complete(
        &mut self,
        name: &String,
        version: &String,
        outcome: Result<PreparedArtifact, PrepareError>,
    )
        requires
            registry_wf(old(self).view_entries()),
            has_key(old(self).view_entries(), name@, version@),
        ensures
            registry_wf(final(self).view_entries()),
            final(self).view_entries().len() == old(self).view_entries().len(),
            exists|i: int|
                {
                    &&& 0 <= i < old(self).view_entries().len()
                    &&& entry_has_key(#[trigger] old(self).view_entries()[i], name@, version@)
                    &&& final(self).view_entries()[i] == (InFlightEntryView {
                        name: name@,
                        version: version@,
                        slot: PrepareSlotView::Settled(
                            match outcome {
                                Result::Ok(a) => Result::Ok(a@),
                                Result::Err(e) => Result::Err(e@),
                            },
                        ),
                    })
                    &&& forall|j: int|
                        0 <= j < old(self).view_entries().len() && j != i
                            ==> final(self).view_entries()[j] == old(self).view_entries()[j]
                },
    {
        let ghost before = self.view_entries();
        let ghost outcome_view = match &outcome {
            Result::Ok(a) => Result::<PreparedArtifactView, PrepareErrorView>::Ok(a@),
            Result::Err(e) => Result::<PreparedArtifactView, PrepareErrorView>::Err(e@),
        };
        let found = self.find_index(name, version);
        match found {
            Option::Some(i) => {
                let entry = InFlightEntry {
                    name: name.clone(),
                    version: version.clone(),
                    slot: PrepareSlot::Settled(outcome),
                };
                let ghost ev = entry@;
                self.entries.set(i, entry);
                proof {
                    let now = self.view_entries();
                    assert(now.len() == before.len());
                    assert(now[i as int] == ev);
                    assert forall|j: int| 0 <= j < before.len() && j != i as int implies now[j]
                        == before[j] by {
                        assert(now[j] == self.entries@[j]@);
                        assert(before[j] == old(self).entries@[j]@);
                    }
                    assert forall|a: int, b: int| 0 <= a < b < now.len() implies !entry_has_key(
                        #[trigger] now[b],
                        (#[trigger] now[a]).name,
                        now[a].version,
                    ) by {
                        assert(entry_has_key(before[i as int], name@, version@));
                        assert(now[a].name == before[a].name && now[a].version == before[
                            a
                        ].version);
                        assert(now[b].name == before[b].name && now[b].version == before[
                            b
                        ].version);
                    }
                }
            },
            Option::None => {
                proof {
                    assert(false);
                }
            },
        }
    }

    /// What the registry holds for an identity: nothing, still in flight, or
    /// the settled result every requester receives.
    pub fn result_of(&self, name: &String, version: &String) -> (r: Option<PrepareSlot>)
        requires
            registry_wf(self.view_entries()),
        ensures
            r is None <==> !has_key(self.view_entries(), name@, version@),
            r matches Some(slot) ==> exists|i: int|
                0 <= i < self.view_entries().len() && entry_has_key(
                    #[trigger] self.view_entries()[i],
                    name@,
                    version@,
                ) && slot@ == self.view_entries()[i].slot,
    {
        let found = self.find_index(name, version);
        match found {
            Option::Some(i) => Some(clone_slot(&self.entries[i].slot)),
            Option::None => None,
        }
    }

    /// The index of the identity's entry, if present.
    fn find_index(&self, name: &String, version: &String) -> (r: Option<usize>)
        ensures
            r is None <==> !has_key(self.view_entries(), name@, version@),
            r matches Some(i) ==> 0 <= i < self.view_entries().len() && entry_has_key(
                self.view_entries()[i as int],
                name@,
                version@,
            ),
    {
        let mut i: usize = 0;
        while i < self.entries.len()
            invariant
                i <= self.entries.len(),
                forall|j: int|
                    0 <= j < i ==> !entry_has_key(
                        #[trigger] self.view_entries()[j],
                        name@,
                        version@,
                    ),
            decreases self.entries.len() - i,
        {
            let e = &self.entries[i];
            proof {
                assert(self.view_entries()[i as int] == self.entries@[i as int]@);
            }
            if crate::strutil::str_eq(e.name.as_str(), name.as_str()) && crate::strutil::str_eq(
                e.version.as_str(),
                version.as_str(),
            ) {
                return Some(i);
            }
            i = i + 1;
        }
        None
    }
}

/// Clone one slot, keeping its mathematical content.
fn clone_slot(s: &PrepareSlot) -> (r: PrepareSlot)
    ensures
        r@ == s@,
{
    match s {
        PrepareSlot::InFlight => PrepareSlot::InFlight,
        PrepareSlot::Settled(Result::Ok(a)) => PrepareSlot::Settled(Result::Ok(clone_artifact(a))),
        PrepareSlot::Settled(Result::Err(e)) => PrepareSlot::Settled(
            Result::Err(clone_prepare_error(e)),
        ),
    }
}

/// The distribution identities to fetch or build, given the set already
/// taken: installable ones only, each identity once, first occurrence kept.
pub open spec fn fetch_plan_from(
    s: Seq<ResolvedDistributionView>,
    seen: Set<(Seq<char>, Seq<char>)>,
) -> Seq<ResolvedDistributionView>
    decreases s.len(),
{
    if s.len() == 0 {
        s
    } else if seen.contains((s[0].name, s[0].version)) {
        fetch_plan_from(s.drop_first(), seen)
    } else {
        seq![s[0]] + fetch_plan_from(s.drop_first(), seen.insert((s[0].name, s[0].version)))
    }
}

/// The identities to fetch or build for a list of installable distributions.
pub open spec fn fetch_plan(s: Seq<ResolvedDistributionView>) -> Seq<ResolvedDistributionView> {
    fetch_plan_from(s, Set::empty())
}

/// Plan the fetches for a resolution's distributions: the installable ones,
/// de-duplicated by identity, first occurrence kept, in order. Identical
/// resolved distributions thus lead to one fetch/build.
pub fn plan_fetches(resolved: &Vec<ResolvedDistribution>) -> (r: Vec<ResolvedDistribution>)
    ensures
        r.deep_view() == fetch_plan(installable_of(resolved.deep_view())),
{
    let ghost views = resolved.deep_view();
    let mut r: Vec<ResolvedDistribution> = Vec::new();
    let ghost seen: Set<(Seq<char>, Seq<char>)> = Set::empty();
    let ghost kept = installable_of(views);
    let mut i: usize = 0;
    proof {
        reveal(Seq::filter);
        assert(views.take(0) =~= Seq::<ResolvedDistributionView>::empty());
        assert(views.take(0).filter(installable_pred()) =~= Seq::<
            ResolvedDistributionView,
        >::empty());
        assert(kept.take(0) =~= Seq::<ResolvedDistributionView>::empty());
        assert(kept.skip(0) =~= kept);
        assert(r.deep_view() =~= Seq::<ResolvedDistributionView>::empty());
        assert(fetch_plan(kept) =~= r.deep_view() + fetch_plan_from(kept.skip(0), seen));
    }
    while i < resolved.len()
        invariant
            i <= resolved.len(),
            views == resolved.deep_view(),
            kept == installable_of(views),
            views.take(i as int).filter(installable_pred()).len() <= kept.len(),
            views.take(i as int).filter(installable_pred()) == kept.take(
                views.take(i as int).filter(installable_pred()).len() as int,
            ),
            fetch_plan(kept) == r.deep_view() + fetch_plan_from(
                kept.skip(views.take(i as int).filter(installable_pred()).len() as int),
                seen,
            ),
            seen =~= Set::new(
                |k: (Seq<char>, Seq<char>)|
                    exists|j: int|
                        0 <= j < r.deep_view().len() && ((#[trigger] r.deep_view()[j]).name,
                        r.deep_view()[j].version) == k,
            ),
        decreases resolved.len() - i,
    {
        let ghost done = views.take(i as int).filter(installable_pred()).len() as int;
        proof {
            crate::strutil::lemma_filter_take_one_more(views, i as int, installable_pred());
            crate::strutil::lemma_filter_split(views, i as int, installable_pred());
            assert(views.skip(i as int)[0] == views[i as int]);
            assert(views.skip(i as int) =~= seq![views[i as int]] + views.skip(i as int + 1));
            crate::strutil::lemma_filter_singleton(views[i as int], installable_pred());
        }
        let d = &resolved[i];
        proof {
            assert(views[i as int] == resolved.deep_view()[i as int]);
        }
        if matches!(d.source_kind, SourceKind::Installable) {
            proof {
                // The installable prefix grows by this distribution.
                assert(views.take(i as int + 1).filter(installable_pred()) == views.take(
                    i as int,
                ).filter(installable_pred()) + seq![views[i as int]]);
                // Hence the next planned slot of `kept` is this distribution.
                assert(kept == views.take(i as int).filter(installable_pred()) + views.skip(
                    i as int,
                ).filter(installable_pred()));
                assert(views.skip(i as int).filter(installable_pred()) == seq![views[i as int]]
                    + views.skip(i as int + 1).filter(installable_pred()));
                assert(kept.skip(done)[0] == kept[done]);
                assert(kept[done] == views[i as int]);
                assert(kept.take(done + 1) =~= kept.take(done) + seq![kept[done]]);
                assert(views.take(i as int + 1).filter(installable_pred()) == kept.take(
                    done + 1,
                ));
                assert(kept.skip(done).drop_first() =~= kept.skip(done + 1));
            }
            let dup = plan_contains(&r, d);
            proof {
                let key = (views[i as int].name, views[i as int].version);
                assert(dup == seen.contains(key));
            }
            if !dup {
                let ghost before_dv = r.deep_view();
                let c = crate::resolution::clone_distribution(d);
                crate::resolution::push_distribution(&mut r, c);
                proof {
                    let key = (views[i as int].name, views[i as int].version);
                    let before_seen = seen;
                    seen = seen.insert(key);
                    let dv = r.deep_view();
                    assert(seen =~= Set::new(
                        |k: (Seq<char>, Seq<char>)|
                            exists|j: int|
                                0 <= j < dv.len() && ((#[trigger] dv[j]).name, dv[j].version)
                                    == k,
                    )) by {
                        assert forall|k: (Seq<char>, Seq<char>)| seen.contains(k)
                            implies exists|j: int|
                            0 <= j < dv.len() && ((#[trigger] dv[j]).name, dv[j].version)
                                == k by {
                            if k == key {
                                assert(((dv[dv.len() - 1]).name, dv[dv.len() - 1].version)
                                    == k);
                            } else {
                                assert(before_seen.contains(k));
                                let j = choose|j: int|
                                    0 <= j < before_dv.len() && ((#[trigger] before_dv[j]).name,
                                    before_dv[j].version) == k;
                                assert(dv[j] == before_dv[j]);
                                assert(((dv[j]).name, dv[j].version) == k);
                            }
                        }
                        assert forall|k: (Seq<char>, Seq<char>)|
                            (exists|j: int|
                                0 <= j < dv.len() && ((#[trigger] dv[j]).name, dv[j].version)
                                    == k) implies seen.contains(k) by {
                            let j = choose|j: int|
                                0 <= j < dv.len() && ((#[trigger] dv[j]).name, dv[j].version)
                                    == k;
                            if j == dv.len() - 1 {
                            } else {
                                assert(dv[j] == before_dv[j]);
                                assert(((before_dv[j]).name, before_dv[j].version) == k);
                            }
                        }
                    }
                }
            }
            proof {
                // One step of the planning recursion at this distribution.
                assert(fetch_plan(kept) == r.deep_view() + fetch_plan_from(
                    kept.skip(done + 1),
                    seen,
                ));
            }
            i = i + 1;
        } else {
            proof {
                assert(views.take(i as int + 1).filter(installable_pred()) == views.take(
                    i as int,
                ).filter(installable_pred()));
            }
            i = i + 1;
        }
    }
    proof {
        assert(views.take(views.len() as int) =~= views);
        assert(views.take(views.len() as int).filter(installable_pred()) == kept);
        assert(kept.take(kept.len() as int) =~= kept);
        assert(kept.skip(kept.len() as int) =~= Seq::<ResolvedDistributionView>::empty());
        assert(fetch_plan_from(Seq::<ResolvedDistributionView>::empty(), seen) =~= Seq::<
            ResolvedDistributionView,
        >::empty());
        assert(r.deep_view() =~= fetch_plan(kept));
    }
    r
}

/// Whether the plan already carries this identity.
fn plan_contains(r: &Vec<ResolvedDistribution>, d: &ResolvedDistribution) -> (dup: bool)
    ensures
        dup == exists|j: int|
            0 <= j < r.deep_view().len() && ((#[trigger] r.deep_view()[j]).name,
            r.deep_view()[j].version) == (d@.name, d@.version),
{
    let mut k: usize = 0;
    while k < r.len()
        invariant
            k <= r.len(),
            forall|j: int|
                0 <= j < k ==> ((#[trigger] r.deep_view()[j]).name, r.deep_view()[j].version) != (
                    d@.name,
                    d@.version,
                ),
        decreases r.len() - k,
    {
        proof {
            assert(r.deep_view()[k as int] == r@[k as int]@);
        }
        if crate::strutil::str_eq(r[k].name.as_str(), d.name.as_str()) && crate::strutil::str_eq(
            r[k].version.as_str(),
            d.version.as_str(),
        ) {
            return true;
        }
        k = k + 1;
    }
    false
}

/// Collect the settled outcomes of the planned fetches: the artifacts in
/// plan order when every fetch succeeded, else the first terminal error. No
/// outcome is dropped silently; a single failure fails the whole run.
pub fn collect_prepared(outcomes: Vec<Result<PreparedArtifact, PrepareError>>) -> (r: Result<
    Vec<PreparedArtifact>,
    PrepareError,
>)
    ensures
        r is Err <==> exists|i: int|
            0 <= i < outcomes@.len() && (#[trigger] outcomes@[i]) is Err,
        r matches Err(e) ==> exists|i: int|
            {
                &&& 0 <= i < outcomes@.len()
                &&& (#[trigger] outcomes@[i]) matches Err(e0) && e@ == e0@
                &&& forall|j: int| 0 <= j < i ==> !((#[trigger] outcomes@[j]) is Err)
            },
        r matches Ok(v) ==> {
            &&& v@.len() == outcomes@.len()
            &&& forall|i: int|
                0 <= i < outcomes@.len() ==> ((#[trigger] outcomes@[i]) matches Ok(a) && v@[i]@
                    == a@)
        },
{
    let ghost all = outcomes@;
    let mut arts: Vec<PreparedArtifact> = Vec::new();
    let mut rest = outcomes;
    let mut i: usize = 0;
    proof {
        vstd::std_specs::vec::axiom_spec_len(&rest);
    }
    while rest.len() > 0
        invariant
            all == outcomes@,
            all.len() <= usize::MAX as int,
            i + rest.len() == all.len(),
            rest@ =~= all.skip(i as int),
            arts@.len() == i,
            forall|j: int|
                0 <= j < i ==> ((#[trigger] all[j]) matches Ok(a) && arts@[j]@ == a@),
        decreases rest.len(),
    {
        let ghost before = rest@;
        let o = rest.remove(0);
        proof {
            assert(o == before[0]);
            assert(before[0] == all[i as int]);
            assert(rest@ =~= all.skip(i as int + 1));
        }
        match o {
            Result::Ok(a) => {
                arts.push(a);
            },
            Result::Err(e) => {
                proof {
                    assert(0 <= (i as int) && (i as int) < all.len() && ((all[i as int]) is Err));
                }
                return Err(e);
            },
        }
        i = i + 1;
    }
    Ok(arts)
}

/// Gate one prepared artifact through the hash strategy: the artifact passes
/// exactly when the strategy permits its digest for its distribution; a
/// rejected artifact fails preparation, attributed to its distribution, and
/// nothing else is touched.
pub fn verify_artifact(
    strategy: &crate::hash_policy::HashStrategy,
    distribution: &String,
    digest: Option<&String>,
    artifact: PreparedArtifact,
) -> (r: Result<PreparedArtifact, PrepareError>)
    ensures
        crate::hash_policy::permits_spec(
            strategy@,
            distribution@,
            match digest {
                Option::Some(g) => Option::Some(g@),
                Option::None => Option::<Seq<char>>::None,
            },
        ) <==> r is Ok,
        r matches Ok(a) ==> a@ == artifact@,
        r matches Err(e) ==> e@.distribution == distribution@,
{
    if strategy.permits(distribution.as_str(), digest) {
        Ok(artifact)
    } else {
        Err(
            PrepareError {
                distribution: distribution.clone(),
                message: hash_mismatch_message(),
            },
        )
    }
}

/// The fixed text attributed to a hash rejection.
fn hash_mismatch_message() -> (r: String)
    ensures
        r@ == "hash check failed"@,
{
    String::from_str("hash check failed")
}


/// The fetch plan holds only input distributions, each identity at most
/// once and not already taken; and it covers every input identity: nothing
/// is fetched twice, and nothing is forgotten.
pub proof fn lemma_fetch_plan_properties(
    s: Seq<ResolvedDistributionView>,
    seen: Set<(Seq<char>, Seq<char>)>,
)
    ensures
        forall|i: int|
            0 <= i < fetch_plan_from(s, seen).len() ==> s.contains(
                #[trigger] fetch_plan_from(s, seen)[i],
            ),
        forall|i: int|
            0 <= i < fetch_plan_from(s, seen).len() ==> !seen.contains(
                ((#[trigger] fetch_plan_from(s, seen)[i]).name, fetch_plan_from(s, seen)[i].version),
            ),
        forall|i: int, j: int|
            0 <= i < j < fetch_plan_from(s, seen).len() ==> ((#[trigger] fetch_plan_from(
                s,
                seen,
            )[i]).name, fetch_plan_from(s, seen)[i].version) != ((#[trigger] fetch_plan_from(
                s,
                seen,
            )[j]).name, fetch_plan_from(s, seen)[j].version),
        forall|k: int|
            0 <= k < s.len() ==> seen.contains(((#[trigger] s[k]).name, s[k].version)) || exists|
                i: int,
            |
                0 <= i < fetch_plan_from(s, seen).len() && ((#[trigger] fetch_plan_from(
                    s,
                    seen,
                )[i]).name, fetch_plan_from(s, seen)[i].version) == (s[k].name, s[k].version),
    decreases s.len(),
{
    if s.len() == 0 {
    } else {
        let d = fetch_plan_from(s, seen);
        let h = s[0];
        let hkey = (h.name, h.version);
        let tail = s.drop_first();
        if seen.contains(hkey) {
            lemma_fetch_plan_properties(tail, seen);
            assert forall|i: int| 0 <= i < d.len() implies s.contains(#[trigger] d[i]) by {
                assert(tail.contains(d[i]));
                let k = choose|k: int| 0 <= k < tail.len() && tail[k] == d[i];
                assert(s[k + 1] == d[i]);
            }
            assert forall|k: int| 0 <= k < s.len() implies seen.contains(
                ((#[trigger] s[k]).name, s[k].version),
            ) || exists|i: int|
                0 <= i < d.len() && ((#[trigger] d[i]).name, d[i].version) == (s[k].name,
                s[k].version) by {
                if k > 0 {
                    assert(tail[k - 1] == s[k]);
                }
            }
        } else {
            let rest = fetch_plan_from(tail, seen.insert(hkey));
            lemma_fetch_plan_properties(tail, seen.insert(hkey));
            assert(d == seq![h] + rest);
            assert forall|i: int| 0 <= i < d.len() implies s.contains(#[trigger] d[i]) by {
                if i == 0 {
                    assert(s[0] == d[0]);
                } else {
                    assert(d[i] == rest[i - 1]);
                    assert(tail.contains(rest[i - 1]));
                    let k = choose|k: int| 0 <= k < tail.len() && tail[k] == rest[i - 1];
                    assert(s[k + 1] == d[i]);
                }
            }
            assert forall|i: int| 0 <= i < d.len() implies !seen.contains(
                ((#[trigger] d[i]).name, d[i].version),
            ) by {
                if i > 0 {
                    assert(d[i] == rest[i - 1]);
                    assert(!seen.insert(hkey).contains((rest[i - 1].name, rest[i - 1].version)));
                }
            }
            assert forall|i: int, j: int| 0 <= i < j < d.len() implies ((#[trigger] d[i]).name,
            d[i].version) != ((#[trigger] d[j]).name, d[j].version) by {
                if i == 0 {
                    assert(d[j] == rest[j - 1]);
                    assert(!seen.insert(hkey).contains((rest[j - 1].name, rest[j - 1].version)));
                } else {
                    assert(d[i] == rest[i - 1] && d[j] == rest[j - 1]);
                }
            }
            assert forall|k: int| 0 <= k < s.len() implies seen.contains(
                ((#[trigger] s[k]).name, s[k].version),
            ) || exists|i: int|
                0 <= i < d.len() && ((#[trigger] d[i]).name, d[i].version) == (s[k].name,
                s[k].version) by {
                if k == 0 {
                    assert(((d[0]).name, d[0].version) == (s[0].name, s[0].version));
                } else {
                    assert(tail[k - 1] == s[k]);
                    if seen.insert(hkey).contains((s[k].name, s[k].version)) {
                        if !seen.contains((s[k].name, s[k].version)) {
                            assert((s[k].name, s[k].version) == hkey);
                            assert(((d[0]).name, d[0].version) == (s[k].name, s[k].version));
                        }
                    } else {
                        let i = choose|i: int|
                            0 <= i < rest.len() && ((#[trigger] rest[i]).name, rest[i].version)
                                == (s[k].name, s[k].version);
                        assert(d[i + 1] == rest[i]);
                        assert(((d[i + 1]).name, d[i + 1].version) == (s[k].name, s[k].version));
                    }
                }
            }
        }
    }
}

/// The canonical wheel filename for a prepared artifact, following the
/// conventional name-version-python-abi-platform scheme.
pub fn wheel_filename(
    name: &str,
    version: &str,
    python_tag: &str,
    abi_tag: &str,
    platform_tag: &str,
) -> (r: String)
    ensures
        r@ == name@ + "-"@ + version@ + "-"@ + python_tag@ + "-"@ + abi_tag@ + "-"@
            + platform_tag@ + ".whl"@,
{
    let mut s = String::from_str(name);
    s.append("-");
    s.append(version);
    s.append("-");
    s.append(python_tag);
    s.append("-");
    s.append(abi_tag);
    s.append("-");
    s.append(platform_tag);
    s.append(".whl");
    proof {
        assert(s@ =~= name@ + "-"@ + version@ + "-"@ + python_tag@ + "-"@ + abi_tag@ + "-"@
            + platform_tag@ + ".whl"@);
    }
    s
}

/// How many further fetch/build operations may start now: enough to work on
/// the pending distributions, but never more in flight at once than the
/// concurrency limit allows.
pub fn startable_fetches(limit: usize, in_flight: usize, pending: usize) -> (r: usize)
    ensures
        r <= pending,
        in_flight + r <= limit || r == 0,
        in_flight >= limit ==> r == 0,
        in_flight < limit ==> r == (if pending <= limit - in_flight {
            pending as int
        } else {
            limit - in_flight
        }),
{
    if in_flight >= limit {
        0
    } else {
        let room = limit - in_flight;
        if pending <= room {
            pending
        } else {
            room
        }
    }
}

} // verus!
