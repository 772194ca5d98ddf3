//! The package-acquisition pipeline, end to end: requirement aggregation,
//! index merging, and hash-policy selection before resolution; fetch planning
//! after it; materialization and reporting once every fetch settled.
//!
//! The resolver and the fetch/build machinery are external collaborators.
//! This module holds everything decided around them, so a run that must fail
//! on its inputs (a missing requirements file, a requirement lacking hashes
//! under the requiring mode) fails here, before any network or build work
//! can start.

use vstd::prelude::*;

use crate::archive::PackagingError;
use crate::hash_policy::{
    HashCheckingMode, HashDeclarationView, HashPolicyError, HashStrategy, HashStrategyView,
};
use crate::index_merge::{merged_spec, IndexLocation, IndexLocationView};
use crate::materialize::{
    build_results, build_writes, download_results, download_writes, input_names,
    materialize_build, materialize_download, MaterializeInput, MaterializedResult, WriteAction,
};
use crate::prepare::{collect_prepared, PrepareError, PreparedArtifact};
use crate::report::{
    build_summary, build_summary_spec, download_summary, download_summary_spec, item_line_spec,
    report_lines,
};
use crate::requirements::{
    aggregate_requirements, collect_sources, AggregatedRequirements, InputError, RequirementEntry,
    RequirementSource,
};
use crate::strutil::lex_leq;

verus! {

/// A pipeline run's terminal error.
#[derive(Debug)]
pub enum PipelineError {
    /// A listed requirements source could not be read; fatal, no partial
    /// work attempted.
    Input(InputError),
    /// The hash policy rejected the declared inputs.
    Hashes(HashPolicyError),
    /// The resolver collaborator failed; rendered as a diagnostic and fatal
    /// (the renderer may downgrade transport-trust failures to a warning
    /// before the run is reported as failed).
    Resolution(String),
    /// A fetch or build failed; surfaced once every sibling settled.
    Preparation(PrepareError),
    /// An archive could not be written.
    Packaging(PackagingError),
}

impl PipelineError {
    /// The process exit code a terminal error maps to: invalid or missing
    /// input exits with two, any otherwise-failed operation with one.
    pub fn exit_code(&self) -> (r: u8)
        ensures
            r == 2 <==> self is Input,
            r == 1 <==> !(self is Input),
    {
        match self {
            PipelineError::Input(_) => 2,
            _ => 1,
        }
    }
}

/// Everything decided before resolution: the four canonical requirement
/// lists, the merged index set, and the two hash strategies.
pub struct RunConfiguration {
    /// The aggregated requirement lists.
    pub requirements: AggregatedRequirements,
    /// The merged, de-duplicated, precedence-ordered index set.
    pub index_locations: Vec<IndexLocation>,
    /// The hash strategy for resolved distributions.
    pub hash_strategy: HashStrategy,
    /// The hash strategy for build-time constraints: never requiring.
    pub build_hash_strategy: HashStrategy,
}

/// The primary declarations the run's hash policy is built from: the listed
/// requirements, then the overrides with their workspace additions.
pub open spec fn primary_declarations(
    requirement_sources: Seq<crate::requirements::RequirementSourceView>,
    override_sources: Seq<crate::requirements::RequirementSourceView>,
    overrides_from_workspace: Seq<crate::requirements::RequirementEntryView>,
) -> Seq<HashDeclarationView> {
    (crate::requirements::concat_entries(requirement_sources) + (
    crate::requirements::concat_entries(override_sources) + overrides_from_workspace)).map_values(
        |e: crate::requirements::RequirementEntryView| entry_declaration(e),
    )
}

/// The constraint declarations: the listed constraints with their workspace
/// additions.
pub open spec fn constraint_declarations(
    constraint_sources: Seq<crate::requirements::RequirementSourceView>,
    constraints_from_workspace: Seq<crate::requirements::RequirementEntryView>,
) -> Seq<HashDeclarationView> {
    (crate::requirements::concat_entries(constraint_sources)
        + constraints_from_workspace).map_values(
        |e: crate::requirements::RequirementEntryView| entry_declaration(e),
    )
}

/// The build-constraint declarations: the listed build constraints with
/// their workspace additions.
pub open spec fn build_declarations(
    build_constraint_sources: Seq<crate::requirements::RequirementSourceView>,
    build_constraints_from_workspace: Seq<crate::requirements::RequirementEntryView>,
) -> Seq<HashDeclarationView> {
    (crate::requirements::concat_entries(build_constraint_sources)
        + build_constraints_from_workspace).map_values(
        |e: crate::requirements::RequirementEntryView| entry_declaration(e),
    )
}

/// A requirement entry as the hash policy sees it.
pub open spec fn entry_declaration(
    e: crate::requirements::RequirementEntryView,
) -> HashDeclarationView {
    HashDeclarationView { name: e.name, applies: e.marker_applies, hashes: e.hashes }
}

/// Configure a run before resolution: gather the listed requirement sources
/// (a missing one is fatal, nothing else is attempted), append the
/// workspace-declared constraints and overrides, merge the index locations,
/// and derive the hash strategies. Under the requiring mode, an applicable
/// declaration without hashes fails the run here.
pub fn configure_run(
    requirement_sources: Vec<RequirementSource>,
    constraint_sources: Vec<RequirementSource>,
    override_sources: Vec<RequirementSource>,
    build_constraint_sources: Vec<RequirementSource>,
    constraints_from_workspace: Vec<RequirementEntry>,
    overrides_from_workspace: Vec<RequirementEntry>,
    build_constraints_from_workspace: Vec<RequirementEntry>,
    base_indexes: &Vec<IndexLocation>,
    default_index: Option<IndexLocation>,
    extra_indexes: &Vec<IndexLocation>,
    find_links: &Vec<IndexLocation>,
    no_index: bool,
    hash_checking: Option<HashCheckingMode>,
) -> (r: Result<RunConfiguration, PipelineError>)
    ensures
        r matches Err(PipelineError::Input(_)) ==> {
            ||| crate::requirements::some_source_missing(requirement_sources.deep_view())
            ||| crate::requirements::some_source_missing(constraint_sources.deep_view())
            ||| crate::requirements::some_source_missing(override_sources.deep_view())
            ||| crate::requirements::some_source_missing(build_constraint_sources.deep_view())
        },
        ({
            ||| crate::requirements::some_source_missing(requirement_sources.deep_view())
            ||| crate::requirements::some_source_missing(constraint_sources.deep_view())
            ||| crate::requirements::some_source_missing(override_sources.deep_view())
            ||| crate::requirements::some_source_missing(build_constraint_sources.deep_view())
        }) ==> (r matches Err(PipelineError::Input(_))),
        r matches Err(PipelineError::Input(InputError::MissingSource(p))) ==> {
            ||| exists|i: int|
                0 <= i < requirement_sources.deep_view().len() && ((
                #[trigger] requirement_sources.deep_view()[i].entries) is None
                    && requirement_sources.deep_view()[i].path == p@)
            ||| exists|i: int|
                0 <= i < constraint_sources.deep_view().len() && ((
                #[trigger] constraint_sources.deep_view()[i].entries) is None
                    && constraint_sources.deep_view()[i].path == p@)
            ||| exists|i: int|
                0 <= i < override_sources.deep_view().len() && ((
                #[trigger] override_sources.deep_view()[i].entries) is None
                    && override_sources.deep_view()[i].path == p@)
            ||| exists|i: int|
                0 <= i < build_constraint_sources.deep_view().len() && ((
                #[trigger] build_constraint_sources.deep_view()[i].entries) is None
                    && build_constraint_sources.deep_view()[i].path == p@)
        },
        r matches Ok(c) ==> {
            &&& c.index_locations.deep_view() == merged_spec(
                base_indexes.deep_view(),
                match default_index {
                    Option::Some(d) => Option::Some(d@),
                    Option::None => Option::<IndexLocationView>::None,
                },
                extra_indexes.deep_view(),
                find_links.deep_view(),
                no_index,
            )
            &&& c.requirements.requirements.deep_view() == crate::requirements::concat_entries(
                requirement_sources.deep_view(),
            )
            &&& c.requirements.constraints.deep_view() == crate::requirements::concat_entries(
                constraint_sources.deep_view(),
            ) + constraints_from_workspace.deep_view()
            &&& c.requirements.overrides.deep_view() == crate::requirements::concat_entries(
                override_sources.deep_view(),
            ) + overrides_from_workspace.deep_view()
            &&& c.requirements.build_constraints.deep_view()
                == crate::requirements::concat_entries(build_constraint_sources.deep_view())
                + build_constraints_from_workspace.deep_view()
            &&& (hash_checking is None ==> c.hash_strategy@ == HashStrategyView::Disabled)
            &&& (hash_checking matches Some(m) ==> c.hash_strategy@ == (
            HashStrategyView::Checked {
                mode: m,
                declarations: crate::hash_policy::applicable(
                    primary_declarations(
                        requirement_sources.deep_view(),
                        override_sources.deep_view(),
                        overrides_from_workspace.deep_view(),
                    ) + constraint_declarations(
                        constraint_sources.deep_view(),
                        constraints_from_workspace.deep_view(),
                    ),
                ),
            }))
            &&& (hash_checking is None ==> c.build_hash_strategy@ == HashStrategyView::Disabled)
            &&& (hash_checking is Some ==> c.build_hash_strategy@ == (
            HashStrategyView::Checked {
                mode: HashCheckingMode::Verify,
                declarations: crate::hash_policy::applicable(
                    build_declarations(
                        build_constraint_sources.deep_view(),
                        build_constraints_from_workspace.deep_view(),
                    ),
                ),
            }))
            &&& !(c.build_hash_strategy@ matches HashStrategyView::Checked { mode, .. } && (mode
                == HashCheckingMode::Require))
        },
        r matches Err(PipelineError::Hashes(_)) ==> {
            &&& hash_checking matches Some(m) && m == HashCheckingMode::Require
            &&& crate::hash_policy::lacking(
                primary_declarations(
                    requirement_sources.deep_view(),
                    override_sources.deep_view(),
                    overrides_from_workspace.deep_view(),
                ) + constraint_declarations(
                    constraint_sources.deep_view(),
                    constraints_from_workspace.deep_view(),
                ),
            ).len() > 0
        },
        (hash_checking matches Some(m) && m == HashCheckingMode::Require
            && crate::hash_policy::lacking(
            primary_declarations(
                requirement_sources.deep_view(),
                override_sources.deep_view(),
                overrides_from_workspace.deep_view(),
            ) + constraint_declarations(
                constraint_sources.deep_view(),
                constraints_from_workspace.deep_view(),
            ),
        ).len() > 0) ==> r is Err,
        ({
            &&& !crate::requirements::some_source_missing(requirement_sources.deep_view())
            &&& !crate::requirements::some_source_missing(constraint_sources.deep_view())
            &&& !crate::requirements::some_source_missing(override_sources.deep_view())
            &&& !crate::requirements::some_source_missing(build_constraint_sources.deep_view())
            &&& !(hash_checking matches Some(m) && m == HashCheckingMode::Require
                && crate::hash_policy::lacking(
                primary_declarations(
                    requirement_sources.deep_view(),
                    override_sources.deep_view(),
                    overrides_from_workspace.deep_view(),
                ) + constraint_declarations(
                    constraint_sources.deep_view(),
                    constraints_from_workspace.deep_view(),
                ),
            ).len() > 0)
        }) ==> r is Ok,
{
    // Read the four requirement categories; a missing source is fatal.
    let requirements = match collect_sources(requirement_sources) {
        Result::Ok(v) => v,
        Result::Err(e) => {
            proof {
                assert(crate::requirements::some_source_missing(requirement_sources.deep_view()));
                if let InputError::MissingSource(p) = &e {
                    let i = choose|i: int|
                        0 <= i < requirement_sources.deep_view().len() && (
                        #[trigger] requirement_sources.deep_view()[i].entries) is None && p@
                            == requirement_sources.deep_view()[i].path && forall|j: int|
                            0 <= j < i ==> !((#[trigger] requirement_sources.deep_view()[j].entries) is None);
                    assert(0 <= i < requirement_sources.deep_view().len() && ((
                    #[trigger] requirement_sources.deep_view()[i].entries) is None && requirement_sources.deep_view()[i].path
                        == p@));
                }
            }
            return Err(PipelineError::Input(e));
        },
    };
    let constraints = match collect_sources(constraint_sources) {
        Result::Ok(v) => v,
        Result::Err(e) => {
            proof {
                assert(crate::requirements::some_source_missing(constraint_sources.deep_view()));
                if let InputError::MissingSource(p) = &e {
                    let i = choose|i: int|
                        0 <= i < constraint_sources.deep_view().len() && (
                        #[trigger] constraint_sources.deep_view()[i].entries) is None && p@
                            == constraint_sources.deep_view()[i].path && forall|j: int|
                            0 <= j < i ==> !((#[trigger] constraint_sources.deep_view()[j].entries) is None);
                    assert(0 <= i < constraint_sources.deep_view().len() && ((
                    #[trigger] constraint_sources.deep_view()[i].entries) is None && constraint_sources.deep_view()[i].path
                        == p@));
                }
            }
            return Err(PipelineError::Input(e));
        },
    };
    let overrides = match collect_sources(override_sources) {
        Result::Ok(v) => v,
        Result::Err(e) => {
            proof {
                assert(crate::requirements::some_source_missing(override_sources.deep_view()));
                if let InputError::MissingSource(p) = &e {
                    let i = choose|i: int|
                        0 <= i < override_sources.deep_view().len() && (
                        #[trigger] override_sources.deep_view()[i].entries) is None && p@
                            == override_sources.deep_view()[i].path && forall|j: int|
                            0 <= j < i ==> !((#[trigger] override_sources.deep_view()[j].entries) is None);
                    assert(0 <= i < override_sources.deep_view().len() && ((
                    #[trigger] override_sources.deep_view()[i].entries) is None && override_sources.deep_view()[i].path
                        == p@));
                }
            }
            return Err(PipelineError::Input(e));
        },
    };
    let build_constraints = match collect_sources(build_constraint_sources) {
        Result::Ok(v) => v,
        Result::Err(e) => {
            proof {
                assert(crate::requirements::some_source_missing(build_constraint_sources.deep_view()));
                if let InputError::MissingSource(p) = &e {
                    let i = choose|i: int|
                        0 <= i < build_constraint_sources.deep_view().len() && (
                        #[trigger] build_constraint_sources.deep_view()[i].entries) is None && p@
                            == build_constraint_sources.deep_view()[i].path && forall|j: int|
                            0 <= j < i ==> !((#[trigger] build_constraint_sources.deep_view()[j].entries) is None);
                    assert(0 <= i < build_constraint_sources.deep_view().len() && ((
                    #[trigger] build_constraint_sources.deep_view()[i].entries) is None && build_constraint_sources.deep_view()[i].path
                        == p@));
                }
            }
            return Err(PipelineError::Input(e));
        },
    };
    let aggregated = aggregate_requirements(
        requirements,
        constraints,
        constraints_from_workspace,
        overrides,
        overrides_from_workspace,
        build_constraints,
        build_constraints_from_workspace,
    );

    // Collect the set of required hashes from the declared requirement
    // hashes; markers were applied when the entries were parsed.
    let mut hash_inputs: Vec<crate::hash_policy::HashDeclaration> = Vec::new();
    append_declarations(&mut hash_inputs, &aggregated.requirements);
    append_declarations(&mut hash_inputs, &aggregated.overrides);
    let mut constraint_inputs: Vec<crate::hash_policy::HashDeclaration> = Vec::new();
    append_declarations(&mut constraint_inputs, &aggregated.constraints);
    proof {
        let primary = primary_declarations(
            requirement_sources.deep_view(),
            override_sources.deep_view(),
            overrides_from_workspace.deep_view(),
        );
        let constraining = constraint_declarations(
            constraint_sources.deep_view(),
            constraints_from_workspace.deep_view(),
        );
        let to_decl = |e: crate::requirements::RequirementEntryView| entry_declaration(e);
        let combined = aggregated.requirements.deep_view() + aggregated.overrides.deep_view();
        assert(combined =~= crate::requirements::concat_entries(
            requirement_sources.deep_view(),
        ) + (crate::requirements::concat_entries(override_sources.deep_view())
            + overrides_from_workspace.deep_view()));
        assert(hash_inputs.deep_view() =~= combined.map_values(to_decl));
        assert(combined.map_values(to_decl) =~= primary);
        let constrained = aggregated.constraints.deep_view();
        assert(constrained =~= crate::requirements::concat_entries(
            constraint_sources.deep_view(),
        ) + constraints_from_workspace.deep_view());
        assert(constraint_inputs.deep_view() =~= constrained.map_values(to_decl));
        assert(constrained.map_values(to_decl) =~= constraining);
        assert(hash_inputs.deep_view() + constraint_inputs.deep_view() =~= primary
            + constraining);
    }
    let hash_strategy = match HashStrategy::from_checking(
        hash_checking,
        &hash_inputs,
        &constraint_inputs,
    ) {
        Result::Ok(s) => s,
        Result::Err(e) => {
            return Err(PipelineError::Hashes(e));
        },
    };

    // Enforce, but never require, hashes for build-time constraints.
    let mut build_inputs: Vec<crate::hash_policy::HashDeclaration> = Vec::new();
    append_declarations(&mut build_inputs, &aggregated.build_constraints);
    let build_hash_strategy = HashStrategy::for_build_constraints(
        &build_inputs,
        hash_checking.is_some(),
    );

    // Incorporate the index locations from the provided sources.
    let index_locations = crate::index_merge::combine_index_locations(
        base_indexes,
        default_index,
        extra_indexes,
        find_links,
        no_index,
    );

    Ok(
        RunConfiguration {
            requirements: aggregated,
            index_locations,
            hash_strategy,
            build_hash_strategy,
        },
    )
}

/// Append each entry as a hash declaration.
fn append_declarations(
    acc: &mut Vec<crate::hash_policy::HashDeclaration>,
    entries: &Vec<RequirementEntry>,
)
    ensures
        final(acc).deep_view() == old(acc).deep_view() + entries.deep_view().map_values(
            |e: crate::requirements::RequirementEntryView| entry_declaration(e),
        ),
{
    let ghost start = acc.deep_view();
    let ghost views = entries.deep_view();
    let ghost mapped = views.map_values(
        |e: crate::requirements::RequirementEntryView| entry_declaration(e),
    );
    let mut i: usize = 0;
    proof {
        assert(acc.deep_view() =~= start + mapped.take(0));
    }
    while i < entries.len()
        invariant
            i <= entries@.len(),
            views == entries.deep_view(),
            mapped == views.map_values(
                |e: crate::requirements::RequirementEntryView| entry_declaration(e),
            ),
            acc.deep_view() == start + mapped.take(i as int),
        decreases entries@.len() - i,
    {
        proof {
            assert(views[i as int] == entries@[i as int]@);
        }
        let ghost before = acc.deep_view();
        let ghost prev = acc@;
        let d = entries[i].to_hash_declaration();
        let ghost dv = d@;
        proof {
            assert(dv == entry_declaration(views[i as int]));
        }
        acc.push(d);
        proof {
            assert(acc@ == prev.push(d));
            let now = acc.deep_view();
            let goal = start + mapped.take(i as int + 1);
            assert(mapped.len() == views.len());
            assert(views.len() == entries@.len());
            assert(i + 1 <= mapped.len());
            assert(mapped.take(i as int + 1).len() == i + 1);
            assert(now.len() == acc@.len());
            assert(acc@.len() == prev.len() + 1);
            assert(before.len() == prev.len());
            assert(before.len() == start.len() + i);
            assert(now.len() == goal.len());
            assert forall|j: int| 0 <= j < now.len() implies now[j] == goal[j] by {
                assert(now[j] == acc@[j]@);
                if j < before.len() {
                    assert(acc@[j] == prev[j]);
                    assert(before[j] == prev[j]@);
                    assert(before[j] == (start + mapped.take(i as int))[j]);
                    if j >= start.len() {
                        assert((start + mapped.take(i as int))[j] == mapped[j - start.len()]);
                        assert(goal[j] == mapped[j - start.len()]);
                    } else {
                        assert(goal[j] == start[j]);
                    }
                } else {
                    assert(acc@[j]@ == dv);
                    assert(j == start.len() + i);
                    assert(goal[j] == mapped[i as int]);
                    assert(mapped[i as int] == entry_declaration(views[i as int]));
                }
            }
            assert(now =~= goal);
        }
        i = i + 1;
    }
    proof {
        assert(mapped.take(mapped.len() as int) =~= mapped);
        assert(acc.deep_view() =~= start + mapped);
    }
}

/// Finish a download run once every fetch settled: the artifacts' outcomes
/// are gathered (the first terminal error fails the run), the prepared
/// contents are materialized into the output directory, and the per-item
/// lines and the summary line are rendered. The report is sorted by filename
/// whatever order preparation finished in. Success is owed whenever every
/// fetch succeeded and every artifact that must be written is packable.
pub fn finish_download_run(
    outcomes: Vec<Result<PreparedArtifact, PrepareError>>,
    inputs: &Vec<MaterializeInput>,
    existing: &Vec<String>,
    elapsed: &str,
) -> (r: Result<(Vec<MaterializedResult>, Vec<WriteAction>, Vec<String>, String), PipelineError>)
    requires
        crate::materialize::distinct_names(inputs.deep_view()),
    ensures
        ((forall|i: int| 0 <= i < outcomes@.len() ==> !((#[trigger] outcomes@[i]) is Err))
            && (forall|i: int|
            0 <= i < inputs.deep_view().len() && !existing.deep_view().contains(
                (#[trigger] inputs.deep_view()[i]).filename,
            ) ==> crate::materialize::content_packable(
                inputs.deep_view()[i].content,
                Option::None,
            ))) ==> r is Ok,
        r matches Err(PipelineError::Packaging(_)) ==> exists|i: int|
            0 <= i < inputs.deep_view().len() && !existing.deep_view().contains(
                (#[trigger] inputs.deep_view()[i]).filename,
            ) && !crate::materialize::content_packable(
                inputs.deep_view()[i].content,
                Option::None,
            ),
        r matches Err(PipelineError::Preparation(e)) ==> exists|i: int|
            0 <= i < outcomes@.len() && ((#[trigger] outcomes@[i]) matches Err(e0) && e@ == e0@),
        (exists|i: int| 0 <= i < outcomes@.len() && (#[trigger] outcomes@[i]) is Err) ==> (
        r matches Err(PipelineError::Preparation(_))),
        r matches Ok((results, actions, lines, summary)) ==> {
            let rnames = results.deep_view().map_values(
                |m: crate::materialize::MaterializedResultView| m.filename,
            );
            &&& vstd::relations::sorted_by(rnames, lex_leq())
            &&& rnames.to_multiset() == input_names(inputs.deep_view()).to_multiset()
            &&& results.deep_view() == download_results(rnames, existing.deep_view())
            &&& actions.deep_view() == download_writes(
                rnames,
                inputs.deep_view(),
                existing.deep_view(),
            )
            &&& lines.deep_view() == results.deep_view().map_values(
                |m: crate::materialize::MaterializedResultView| item_line_spec(m),
            )
            &&& summary@ == download_summary_spec(
                crate::report::count_outcome(
                    results.deep_view(),
                    crate::materialize::Outcome::Downloaded,
                ) as nat,
                elapsed@,
            )
        },
{
    // Settle the fetch outcomes first: one failure fails the whole run,
    // after every sibling settled. The artifacts' contents arrive separately
    // as materialization inputs, read from the cache by the caller.
    match collect_prepared(outcomes) {
        Result::Ok(_) => {},
        Result::Err(e) => {
            return Err(PipelineError::Preparation(e));
        },
    }
    let (results, actions) = match materialize_download(inputs, existing) {
        Result::Ok(v) => v,
        Result::Err(e) => {
            return Err(PipelineError::Packaging(e));
        },
    };
    let lines = report_lines(&results);
    let count = crate::report::outcome_count(&results, crate::materialize::Outcome::Downloaded);
    proof {
        assert(crate::report::count_outcome(
            results.deep_view(),
            crate::materialize::Outcome::Downloaded,
        ) <= results.deep_view().len()) by {
            results.deep_view().lemma_filter_len(
                |m: crate::materialize::MaterializedResultView| m.outcome
                    == crate::materialize::Outcome::Downloaded,
            );
        }
    }
    let summary = download_summary(count as u64, elapsed);
    Ok((results, actions, lines, summary))
}

/// Finish a build run once every fetch settled: outcomes are gathered (the
/// first terminal error fails the run), every artifact is packed and written,
/// overwriting, and the listing lines and summary are rendered in sorted
/// order. Success is owed whenever every fetch succeeded and every artifact
/// is packable.
pub fn finish_build_run(
    outcomes: Vec<Result<PreparedArtifact, PrepareError>>,
    inputs: &Vec<MaterializeInput>,
    elapsed: &str,
) -> (r: Result<(Vec<MaterializedResult>, Vec<WriteAction>, Vec<String>, String), PipelineError>)
    requires
        crate::materialize::distinct_names(inputs.deep_view()),
    ensures
        ((forall|i: int| 0 <= i < outcomes@.len() ==> !((#[trigger] outcomes@[i]) is Err))
            && (forall|i: int|
            0 <= i < inputs.deep_view().len() ==> crate::materialize::content_packable(
                (#[trigger] inputs.deep_view()[i]).content,
                crate::materialize::build_permissions(),
            ))) ==> r is Ok,
        r matches Err(PipelineError::Packaging(_)) ==> exists|i: int|
            0 <= i < inputs.deep_view().len() && !crate::materialize::content_packable(
                (#[trigger] inputs.deep_view()[i]).content,
                crate::materialize::build_permissions(),
            ),
        r matches Err(PipelineError::Preparation(e)) ==> exists|i: int|
            0 <= i < outcomes@.len() && ((#[trigger] outcomes@[i]) matches Err(e0) && e@ == e0@),
        (exists|i: int| 0 <= i < outcomes@.len() && (#[trigger] outcomes@[i]) is Err) ==> (
        r matches Err(PipelineError::Preparation(_))),
        r matches Ok((results, actions, lines, summary)) ==> {
            let rnames = results.deep_view().map_values(
                |m: crate::materialize::MaterializedResultView| m.filename,
            );
            &&& vstd::relations::sorted_by(rnames, lex_leq())
            &&& rnames.to_multiset() == input_names(inputs.deep_view()).to_multiset()
            &&& results.deep_view() == build_results(rnames)
            &&& actions.deep_view() == build_writes(rnames, inputs.deep_view())
            &&& lines.deep_view() == results.deep_view().map_values(
                |m: crate::materialize::MaterializedResultView| item_line_spec(m),
            )
            &&& summary@ == build_summary_spec(
                crate::report::count_outcome(
                    results.deep_view(),
                    crate::materialize::Outcome::Built,
                ) as nat,
                elapsed@,
            )
        },
{
    // Settle the fetch outcomes first: one failure fails the whole run,
    // after every sibling settled. The artifacts' contents arrive separately
    // as materialization inputs, read from the cache by the caller.
    match collect_prepared(outcomes) {
        Result::Ok(_) => {},
        Result::Err(e) => {
            return Err(PipelineError::Preparation(e));
        },
    }
    let (results, actions) = match materialize_build(inputs) {
        Result::Ok(v) => v,
        Result::Err(e) => {
            return Err(PipelineError::Packaging(e));
        },
    };
    let lines = report_lines(&results);
    let count = crate::report::outcome_count(&results, crate::materialize::Outcome::Built);
    proof {
        assert(crate::report::count_outcome(
            results.deep_view(),
            crate::materialize::Outcome::Built,
        ) <= results.deep_view().len()) by {
            results.deep_view().lemma_filter_len(
                |m: crate::materialize::MaterializedResultView| m.outcome
                    == crate::materialize::Outcome::Built,
            );
        }
    }
    let summary = build_summary(count as u64, elapsed);
    Ok((results, actions, lines, summary))
}

} // verus!
