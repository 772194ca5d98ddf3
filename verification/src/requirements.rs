//! Aggregation of requirement sources: explicit requirement, constraint,
//! override, and build-constraint inputs are merged with their
//! workspace-declared equivalents into the four canonical lists consumed by
//! resolution.
//!
//! Workspace-sourced entries are appended after explicitly supplied entries
//! of the same category; nothing is de-duplicated here (duplicates are the
//! resolver's business). A listed requirements source that could not be read
//! is a fatal input error.

use vstd::prelude::*;

verus! {

/// One parsed requirement line: the package name, the raw specifier text,
/// the declared hashes, and whether its environment marker applies.
pub struct RequirementEntry {
    /// The package name.
    pub name: String,
    /// The requirement text as written (specifier, extras, markers).
    pub specifier: String,
    /// Hashes declared for the requirement, possibly none.
    pub hashes: Vec<String>,
    /// Whether the requirement's marker matches the current environment.
    pub marker_applies: bool,
}

/// The mathematical content of a [`RequirementEntry`].
pub ghost struct RequirementEntryView {
    pub name: Seq<char>,
    pub specifier: Seq<char>,
    pub hashes: Seq<Seq<char>>,
    pub marker_applies: bool,
}

impl View for RequirementEntry {
    type V = RequirementEntryView;

    open spec fn view(&self) -> RequirementEntryView {
        RequirementEntryView {
            name: self.name@,
            specifier: self.specifier@,
            hashes: self.hashes.deep_view(),
            marker_applies: self.marker_applies,
        }
    }
}

impl DeepView for RequirementEntry {
    type V = RequirementEntryView;

    open spec fn deep_view(&self) -> RequirementEntryView {
        self.view()
    }
}

impl RequirementEntry {
    /// The entry as the hash policy sees it.
    pub fn to_hash_declaration(&self) -> (r: crate::hash_policy::HashDeclaration)
        ensures
            r@.name == self@.name,
            r@.applies == self@.marker_applies,
            r@.hashes == self@.hashes,
    {
        crate::hash_policy::HashDeclaration {
            name: self.name.clone(),
            applies: self.marker_applies,
            hashes: crate::strutil::clone_strings(&self.hashes),
        }
    }
}

/// One requirements source: its path, and its parsed entries, or nothing
/// where the file could not be read.
pub struct RequirementSource {
    /// The path the source was listed under.
    pub path: String,
    /// The parsed entries, or `None` where the file was unreadable.
    pub entries: Option<Vec<RequirementEntry>>,
}

/// The mathematical content of a [`RequirementSource`].
pub ghost struct RequirementSourceView {
    pub path: Seq<char>,
    pub entries: Option<Seq<RequirementEntryView>>,
}

impl View for RequirementSource {
    type V = RequirementSourceView;

    open spec fn view(&self) -> RequirementSourceView {
        RequirementSourceView {
            path: self.path@,
            entries: match self.entries {
                Option::Some(v) => Option::Some(v.deep_view()),
                Option::None => Option::None,
            },
        }
    }
}

impl DeepView for RequirementSource {
    type V = RequirementSourceView;

    open spec fn deep_view(&self) -> RequirementSourceView {
        self.view()
    }
}

/// Fatal input error: a listed requirements source could not be read.
#[derive(Debug)]
pub enum InputError {
    /// The source at the given path is missing or unreadable.
    MissingSource(String),
}

/// The four canonical requirement lists consumed by resolution.
pub struct AggregatedRequirements {
    /// Requirements to resolve.
    pub requirements: Vec<RequirementEntry>,
    /// Constraints applied during resolution.
    pub constraints: Vec<RequirementEntry>,
    /// Overrides applied during resolution.
    pub overrides: Vec<RequirementEntry>,
    /// Constraints applied to build-time dependencies.
    pub build_constraints: Vec<RequirementEntry>,
}

/// The readable sources' entries concatenated in listed order.
pub open spec fn concat_entries(s: Seq<RequirementSourceView>) -> Seq<RequirementEntryView>
    decreases s.len(),
{
    if s.len() == 0 {
        Seq::empty()
    } else {
        (match s[0].entries {
            Option::Some(e) => e,
            Option::None => Seq::empty(),
        }) + concat_entries(s.drop_first())
    }
}


/// Whether some listed source could not be read.
pub open spec fn some_source_missing(s: Seq<RequirementSourceView>) -> bool {
    exists|i: int| 0 <= i < s.len() && (#[trigger] s[i].entries) is None
}

/// Gather the entries of the listed sources, in order. A source that could
/// not be read is a fatal input error naming the first such path; no partial
/// work is returned.
pub fn collect_sources(sources: Vec<RequirementSource>) -> (r: Result<
    Vec<RequirementEntry>,
    InputError,
>)
    ensures
        r is Err <==> exists|i: int|
            0 <= i < sources.deep_view().len() && (#[trigger] sources.deep_view()[i].entries)
                is None,
        r matches Err(InputError::MissingSource(p)) ==> exists|i: int|
            0 <= i < sources.deep_view().len() && (#[trigger] sources.deep_view()[i].entries)
                is None && p@ == sources.deep_view()[i].path && forall|j: int|
                0 <= j < i ==> !((#[trigger] sources.deep_view()[j].entries) is None),
        r matches Ok(v) ==> v.deep_view() == concat_entries(sources.deep_view()),
{
    let ghost views = sources.deep_view();
    proof {
        vstd::std_specs::vec::axiom_spec_len(&sources);
    }
    let mut out: Vec<RequirementEntry> = Vec::new();
    let mut rest = sources;
    let mut i: usize = 0;
    proof {
        assert(out.deep_view() =~= concat_prefix(views, 0));
        assert(rest.deep_view() =~= views.skip(0));
    }
    while rest.len() > 0
        invariant
            views == sources.deep_view(),
            i + rest.len() == views.len(),
            views.len() <= usize::MAX as int,
            rest.deep_view() == views.skip(i as int),
            out.deep_view() == concat_prefix(views, i as int),
            forall|j: int| 0 <= j < i ==> !((#[trigger] views[j].entries) is None),
        decreases rest.len(),
    {
        let ghost before = rest.deep_view();
        let s = rest.remove(0);
        proof {
            assert(s@ == before[0]);
            assert(before[0] == views[i as int]);
            let dv = rest.deep_view();
            assert forall|j: int| 0 <= j < dv.len() implies dv[j] == views.skip(
                i as int + 1,
            )[j] by {
                assert(dv[j] == rest@[j]@);
                assert(before[j + 1] == views.skip(i as int)[j + 1]);
            }
            assert(dv =~= views.skip(i as int + 1));
        }
        match s.entries {
            Option::Some(mut es) => {
                let ghost esv = es.deep_view();
                proof {
                    assert(views[i as int].entries == Option::Some(esv));
                }
                out.append(&mut es);
                proof {
                    lemma_concat_prefix_step(views, i as int);
                    let dv = out.deep_view();
                    let goal = concat_prefix(views, i as int + 1);
                    assert(dv =~= goal);
                }
            },
            Option::None => {
                proof {
                    assert(0 <= (i as int) && (i as int) < views.len() && ((views[i as int].entries) is None));
                    assert(s@.path == views[i as int].path);
                }
                return Err(InputError::MissingSource(s.path));
            },
        }
        i = i + 1;
    }
    proof {
        lemma_concat_prefix_full(views);
    }
    Ok(out)
}

/// The entries of the first `n` sources concatenated.
pub open spec fn concat_prefix(s: Seq<RequirementSourceView>, n: int) -> Seq<RequirementEntryView> {
    concat_entries(s.take(n))
}

/// Extending the prefix by one readable source appends its entries.
proof fn lemma_concat_prefix_step(s: Seq<RequirementSourceView>, i: int)
    requires
        0 <= i < s.len(),
    ensures
        concat_prefix(s, i + 1) == concat_prefix(s, i) + (match s[i].entries {
            Option::Some(e) => e,
            Option::None => Seq::<RequirementEntryView>::empty(),
        }),
{
    lemma_concat_entries_append(s.take(i), s[i]);
    assert(s.take(i + 1) =~= s.take(i).push(s[i]));
}

/// The whole prefix is the whole sequence.
proof fn lemma_concat_prefix_full(s: Seq<RequirementSourceView>)
    ensures
        concat_prefix(s, s.len() as int) == concat_entries(s),
{
    assert(s.take(s.len() as int) =~= s);
}

/// Concatenation over a sequence extended by one source.
proof fn lemma_concat_entries_append(s: Seq<RequirementSourceView>, x: RequirementSourceView)
    ensures
        concat_entries(s.push(x)) == concat_entries(s) + (match x.entries {
            Option::Some(e) => e,
            Option::None => Seq::<RequirementEntryView>::empty(),
        }),
    decreases s.len(),
{
    let xe = match x.entries {
        Option::Some(e) => e,
        Option::None => Seq::<RequirementEntryView>::empty(),
    };
    if s.len() == 0 {
        assert(s.push(x)[0] == x);
        assert(s.push(x).drop_first() =~= Seq::<RequirementSourceView>::empty());
        assert(concat_entries(Seq::<RequirementSourceView>::empty())
            == Seq::<RequirementEntryView>::empty());
        assert(concat_entries(s.push(x)) == xe + Seq::<RequirementEntryView>::empty());
        assert(xe + Seq::<RequirementEntryView>::empty() =~= xe);
        assert(concat_entries(s) == Seq::<RequirementEntryView>::empty());
        assert(Seq::<RequirementEntryView>::empty() + xe =~= xe);
        assert(concat_entries(s.push(x)) =~= concat_entries(s) + xe);
    } else {
        assert(s.push(x)[0] == s[0]);
        assert(s.push(x).drop_first() =~= s.drop_first().push(x));
        lemma_concat_entries_append(s.drop_first(), x);
        let h = match s[0].entries {
            Option::Some(e) => e,
            Option::None => Seq::<RequirementEntryView>::empty(),
        };
        assert(concat_entries(s.push(x)) == h + (concat_entries(s.drop_first()) + xe));
        assert(h + (concat_entries(s.drop_first()) + xe) =~= (h + concat_entries(s.drop_first()))
            + xe);
    }
}

/// Merge the four requirement categories with their workspace-declared
/// equivalents: within each category the workspace entries are appended after
/// the explicitly supplied ones, and nothing is de-duplicated.
pub fn aggregate_requirements(
    requirements: Vec<RequirementEntry>,
    constraints: Vec<RequirementEntry>,
    constraints_from_workspace: Vec<RequirementEntry>,
    overrides: Vec<RequirementEntry>,
    overrides_from_workspace: Vec<RequirementEntry>,
    build_constraints: Vec<RequirementEntry>,
    build_constraints_from_workspace: Vec<RequirementEntry>,
) -> (r: AggregatedRequirements)
    ensures
        r.requirements.deep_view() == requirements.deep_view(),
        r.constraints.deep_view() == constraints.deep_view()
            + constraints_from_workspace.deep_view(),
        r.overrides.deep_view() == overrides.deep_view() + overrides_from_workspace.deep_view(),
        r.build_constraints.deep_view() == build_constraints.deep_view()
            + build_constraints_from_workspace.deep_view(),
{
    let constraints = append_entries(constraints, constraints_from_workspace);
    let overrides = append_entries(overrides, overrides_from_workspace);
    let build_constraints = append_entries(build_constraints, build_constraints_from_workspace);
    AggregatedRequirements { requirements, constraints, overrides, build_constraints }
}

/// Append the second list after the first.
fn append_entries(first: Vec<RequirementEntry>, second: Vec<RequirementEntry>) -> (r: Vec<
    RequirementEntry,
>)
    ensures
        r.deep_view() == first.deep_view() + second.deep_view(),
{
    let ghost fv = first.deep_view();
    let ghost sv = second.deep_view();
    let mut first = first;
    let mut second = second;
    first.append(&mut second);
    proof {
        let dv = first.deep_view();
        assert forall|j: int| 0 <= j < dv.len() implies dv[j] == (fv + sv)[j] by {
            assert(dv[j] == first@[j]@);
        }
        assert(dv =~= fv + sv);
    }
    first
}

} // verus!
