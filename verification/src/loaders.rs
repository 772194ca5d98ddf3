//! Loading of declared dependencies and locked versions into the library's
//! package records: requirement-line parsing with name normalization,
//! lockfile entries, the name-to-version map, and the categorization of raw
//! dependencies into production and development lists.
//!
//! File reading and manifest parsing happen outside; these functions work on
//! the plain values read from them.

use vstd::prelude::*;
use vstd::string::StrSliceExecFns;
use vstd::string::StringExecFns;

use crate::project_state::Package;
use crate::textscan::{
    ascii_alnum, ascii_lower, drop_leading, find_first, is_alphanumeric_char,
    lemma_find_first_is,
};

verus! {

/// The source location of a dependency declaration.
pub enum DependencySource {
    /// The project's main dependency list.
    Project,
    /// An optional-dependency extra, by name.
    OptionalDependency(String),
    /// The tool-specific development-dependency list.
    ToolUvDevDependencies,
    /// A named dependency group.
    DependencyGroup(String),
}

/// The mathematical content of a [`DependencySource`].
pub ghost enum DependencySourceView {
    Project,
    OptionalDependency(Seq<char>),
    ToolUvDevDependencies,
    DependencyGroup(Seq<char>),
}

impl View for DependencySource {
    type V = DependencySourceView;

    open spec fn view(&self) -> DependencySourceView {
        match self {
            DependencySource::Project => DependencySourceView::Project,
            DependencySource::OptionalDependency(e) => DependencySourceView::OptionalDependency(
                e@,
            ),
            DependencySource::ToolUvDevDependencies => (
            DependencySourceView::ToolUvDevDependencies),
            DependencySource::DependencyGroup(g) => DependencySourceView::DependencyGroup(g@),
        }
    }
}

/// Whether a source stands for a development dependency: the tool-specific
/// list always, and the extra or group named `dev`.
pub open spec fn source_is_dev(s: DependencySourceView) -> bool {
    match s {
        DependencySourceView::Project => false,
        DependencySourceView::OptionalDependency(e) => e == "dev"@,
        DependencySourceView::ToolUvDevDependencies => true,
        DependencySourceView::DependencyGroup(g) => g == "dev"@,
    }
}

impl DependencySource {
    /// Whether this source stands for a development dependency.
    pub fn is_dev(&self) -> (r: bool)
        ensures
            r == source_is_dev(self@),
    {
        match self {
            DependencySource::Project => false,
            DependencySource::OptionalDependency(extra) => crate::strutil::str_eq(
                extra.as_str(),
                "dev",
            ),
            DependencySource::ToolUvDevDependencies => true,
            DependencySource::DependencyGroup(group) => crate::strutil::str_eq(
                group.as_str(),
                "dev",
            ),
        }
    }

    /// A human-readable label for this source.
    pub fn label(&self) -> (r: &'static str)
        ensures
            r@ == (match self@ {
                DependencySourceView::Project => "dependencies"@,
                DependencySourceView::OptionalDependency(_) => "optional"@,
                DependencySourceView::ToolUvDevDependencies => "tool.uv"@,
                DependencySourceView::DependencyGroup(_) => "group"@,
            }),
    {
        match self {
            DependencySource::Project => "dependencies",
            DependencySource::OptionalDependency(_) => "optional",
            DependencySource::ToolUvDevDependencies => "tool.uv",
            DependencySource::DependencyGroup(_) => "group",
        }
    }
}

/// A dependency loaded from a project manifest.
pub struct LoadedDependency {
    /// The package name, normalized.
    pub name: String,
    /// The raw requirement text.
    pub requirement_string: String,
    /// Where the dependency was declared.
    pub source: DependencySource,
}

/// The mathematical content of a [`LoadedDependency`].
pub ghost struct LoadedDependencyView {
    pub name: Seq<char>,
    pub requirement_string: Seq<char>,
    pub source: DependencySourceView,
}

impl View for LoadedDependency {
    type V = LoadedDependencyView;

    open spec fn view(&self) -> LoadedDependencyView {
        LoadedDependencyView {
            name: self.name@,
            requirement_string: self.requirement_string@,
            source: self.source@,
        }
    }
}

impl DeepView for LoadedDependency {
    type V = LoadedDependencyView;

    open spec fn deep_view(&self) -> LoadedDependencyView {
        self.view()
    }
}

impl LoadedDependency {
    /// Whether this is a development dependency.
    pub fn is_dev(&self) -> (r: bool)
        ensures
            r == source_is_dev(self@.source),
    {
        self.source.is_dev()
    }
}

/// Error raised while loading dependencies.
#[derive(Debug)]
pub enum DependencyLoadError {
    /// The manifest could not be read.
    ReadError(String),
    /// The manifest could not be parsed.
    ParseError(String),
}

/// A character a requirement's leading package name may carry.
pub open spec fn req_name_char_pred() -> spec_fn(char) -> bool {
    |c: char| is_alphanumeric_char(c) || c == '-' || c == '_' || c == '.'
}

/// A separator collapsed by name normalization.
pub open spec fn name_sep_pred() -> spec_fn(char) -> bool {
    |c: char| c == '-' || c == '_' || c == '.'
}

/// The normalized form of a package name: ASCII-lowercased, with every run
/// of dashes, underscores, and dots collapsed into a single dash.
pub open spec fn normalized_name(s: Seq<char>) -> Seq<char>
    decreases s.len(),
    via normalized_name_decreases
{
    if s.len() == 0 {
        Seq::empty()
    } else if name_sep_pred()(s[0]) {
        seq!['-'] + normalized_name(drop_leading(s, name_sep_pred()))
    } else {
        seq![ascii_lower(s[0])] + normalized_name(s.drop_first())
    }
}

#[via_fn]
proof fn normalized_name_decreases(s: Seq<char>) {
    if s.len() > 0 && name_sep_pred()(s[0]) {
        lemma_drop_leading_shorter(s, name_sep_pred());
    }
}

/// Dropping a nonempty leading run shortens the sequence.
proof fn lemma_drop_leading_shorter(s: Seq<char>, p: spec_fn(char) -> bool)
    requires
        s.len() > 0,
        p(s[0]),
    ensures
        drop_leading(s, p).len() < s.len(),
    decreases s.len(),
{
    let rest = s.drop_first();
    if rest.len() > 0 && p(rest[0]) {
        lemma_drop_leading_shorter(rest, p);
    } else {
        assert(drop_leading(rest, p) == rest);
    }
}

/// The leading package name of a requirement string: the run of name
/// characters before anything else (extras, specifiers, markers).
pub open spec fn leading_name(s: Seq<char>) -> Seq<char> {
    s.take(find_first(s, |c: char| !(req_name_char_pred()(c))))
}

/// Whether a leading name can stand as a package name: nonempty, ASCII, and
/// beginning and ending with a letter or digit.
pub open spec fn acceptable_name(s: Seq<char>) -> bool {
    &&& s.len() > 0
    &&& forall|i: int| 0 <= i < s.len() ==> (#[trigger] s[i] as u32) < 128
    &&& ascii_alnum(s[0])
    &&& ascii_alnum(s.last())
}

/// Normalize a package name.
pub fn normalize_name(s: &str) -> (r: String)
    ensures
        r@ == normalized_name(s@),
{
    let len: usize = s.unicode_len();
    let mut out = String::new();
    let mut i: usize = 0;
    proof {
        assert(s@.skip(0) =~= s@);
        assert(out@ + normalized_name(s@.skip(0)) =~= normalized_name(s@));
    }
    while i < len
        invariant
            i <= len,
            len == s@.len(),
            normalized_name(s@) == out@ + normalized_name(s@.skip(i as int)),
        decreases len - i,
    {
        let c = s.get_char(i);
        proof {
            assert(s@.skip(i as int)[0] == s@[i as int]);
        }
        if c == '-' || c == '_' || c == '.' {
            proof {
                reveal_strlit("-");
                assert("-"@ =~= seq!['-']);
            }
            out.append("-");
            let ghost run_start = i as int;
            while i < len && (s.get_char(i) == '-' || s.get_char(i) == '_' || s.get_char(i)
                == '.')
                invariant
                    run_start <= i <= len,
                    len == s@.len(),
                    drop_leading(s@.skip(run_start), name_sep_pred()) == drop_leading(
                        s@.skip(i as int),
                        name_sep_pred(),
                    ),
                decreases len - i,
            {
                proof {
                    let suf = s@.skip(i as int);
                    assert(suf[0] == s@[i as int]);
                    assert(suf.drop_first() =~= s@.skip(i as int + 1));
                }
                i = i + 1;
            }
            proof {
                let suf = s@.skip(i as int);
                if i < len {
                    assert(suf[0] == s@[i as int]);
                    assert(drop_leading(suf, name_sep_pred()) == suf);
                } else {
                    assert(suf =~= Seq::<char>::empty());
                    assert(drop_leading(suf, name_sep_pred()) == suf);
                }
                assert(normalized_name(s@.skip(run_start)) == seq!['-'] + normalized_name(
                    s@.skip(i as int),
                ));
            }
        } else {
            let lc = c.to_ascii_lowercase();
            push_char(&mut out, lc);
            proof {
                assert(s@.skip(i as int).drop_first() =~= s@.skip(i as int + 1));
                assert(normalized_name(s@.skip(i as int)) == seq![ascii_lower(c)]
                    + normalized_name(s@.skip(i as int + 1)));
            }
            i = i + 1;
        }
    }
    proof {
        assert(s@.skip(len as int) =~= Seq::<char>::empty());
        assert(normalized_name(Seq::<char>::empty()) =~= Seq::<char>::empty());
        assert(out@ =~= normalized_name(s@));
    }
    out
}

/// Relies on `String::push`: the character is appended.
#[verifier::external_body]
pub fn push_char(s: &mut String, c: char)
    ensures
        final(s)@ == old(s)@.push(c),
{
    s.push(c);
}

/// What parsing a requirement line yields: the normalized leading name, when
/// the leading name is acceptable.
pub open spec fn parsed_requirement(s: Seq<char>) -> Option<Seq<char>> {
    if acceptable_name(leading_name(s)) {
        Option::Some(normalized_name(leading_name(s)))
    } else {
        Option::None
    }
}

/// Loads dependencies from manifest data.
pub struct DependencyLoader;

impl DependencyLoader {
    /// Parse one requirement line into a loaded dependency: its leading name
    /// must be acceptable; the name is normalized and the raw text kept.
    pub fn parse_requirement(req_str: &str, source: DependencySource) -> (r: Option<
        LoadedDependency,
    >)
        ensures
            r is Some <==> parsed_requirement(req_str@) is Some,
            r matches Some(d) ==> {
                &&& Option::Some(d@.name) == parsed_requirement(req_str@)
                &&& d@.requirement_string == req_str@
                &&& d@.source == source@
            },
    {
        let len: usize = req_str.unicode_len();
        let mut k: usize = 0;
        while k < len && (req_str.get_char(k).is_alphanumeric() || req_str.get_char(k) == '-'
            || req_str.get_char(k) == '_' || req_str.get_char(k) == '.')
            invariant
                k <= len,
                len == req_str@.len(),
                forall|t: int| 0 <= t < k ==> req_name_char_pred()(#[trigger] req_str@[t]),
            decreases len - k,
        {
            k = k + 1;
        }
        proof {
            let notname = |c: char| !(req_name_char_pred()(c));
            assert forall|t: int| 0 <= t < k implies !notname(#[trigger] req_str@[t]) by {}
            if (k as int) < req_str@.len() {
                assert(notname(req_str@[k as int]));
            }
            lemma_find_first_is(req_str@, notname, k as int);
        }
        let name_str = req_str.substring_char(0, k);
        proof {
            assert(name_str@ =~= leading_name(req_str@));
        }
        if k == 0 {
            proof {
                assert(!acceptable_name(leading_name(req_str@)));
            }
            return None;
        }
        // The name must be ASCII with a letter or digit at each end.
        let mut t: usize = 0;
        while t < k
            invariant
                t <= k,
                k == name_str@.len(),
                name_str@ == leading_name(req_str@),
                forall|j: int| 0 <= j < t ==> ((#[trigger] name_str@[j]) as u32) < 128,
            decreases k - t,
        {
            let c = name_str.get_char(t);
            if (c as u32) >= 128 {
                proof {
                    assert(!acceptable_name(leading_name(req_str@)));
                }
                return None;
            }
            t = t + 1;
        }
        let first = name_str.get_char(0);
        let last = name_str.get_char(k - 1);
        let head_alnum = ((('a' as u32) <= (first as u32) && (first as u32) <= ('z' as u32)) || ((
        'A' as u32) <= (first as u32) && (first as u32) <= ('Z' as u32)) || (('0' as u32) <= (
        first as u32) && (first as u32) <= ('9' as u32)));
        let tail_alnum = ((('a' as u32) <= (last as u32) && (last as u32) <= ('z' as u32)) || (('A'
            as u32) <= (last as u32) && (last as u32) <= ('Z' as u32)) || (('0' as u32) <= (last
            as u32) && (last as u32) <= ('9' as u32)));
        if !head_alnum || !tail_alnum {
            proof {
                assert(!acceptable_name(leading_name(req_str@)));
            }
            return None;
        }
        proof {
            assert(acceptable_name(leading_name(req_str@)));
        }
        let name = normalize_name(name_str);
        Some(
            LoadedDependency {
                name,
                requirement_string: String::from_str(req_str),
                source,
            },
        )
    }

    /// Parse the project's main dependency list: every line whose leading
    /// name is acceptable, in order; the rest are dropped.
    pub fn load_project_dependencies(deps: &Vec<String>) -> (r: Vec<LoadedDependency>)
        ensures
            r.deep_view() == project_dependencies_spec(deps.deep_view()),
    {
        let ghost views = deps.deep_view();
        let mut r: Vec<LoadedDependency> = Vec::new();
        let mut i: usize = 0;
        proof {
            assert(views.take(0) =~= Seq::<Seq<char>>::empty());
            assert(project_dependencies_spec(views.take(0)) =~= Seq::<
                LoadedDependencyView,
            >::empty());
            assert(r.deep_view() =~= project_dependencies_spec(views.take(0)));
        }
        while i < deps.len()
            invariant
                i <= deps.len(),
                views == deps.deep_view(),
                r.deep_view() == project_dependencies_spec(views.take(i as int)),
            decreases deps.len() - i,
        {
            proof {
                lemma_project_dependencies_push(views.take(i as int), views[i as int]);
                assert(views.take(i as int + 1) =~= views.take(i as int).push(views[i as int]));
                assert(views[i as int] == deps.deep_view()[i as int]);
                assert(deps.deep_view()[i as int] == deps@[i as int]@);
            }
            let parsed = DependencyLoader::parse_requirement(
                deps[i].as_str(),
                DependencySource::Project,
            );
            match parsed {
                Option::Some(d) => {
                    push_dependency(&mut r, d);
                    proof {
                        assert(r.deep_view() =~= project_dependencies_spec(
                            views.take(i as int + 1),
                        ));
                    }
                },
                Option::None => {
                    proof {
                        assert(r.deep_view() =~= project_dependencies_spec(
                            views.take(i as int + 1),
                        ));
                    }
                },
            }
            i = i + 1;
        }
        proof {
            assert(views.take(views.len() as int) =~= views);
        }
        r
    }
}

/// What the main dependency list parses to, line by line.
pub open spec fn project_dependencies_spec(deps: Seq<Seq<char>>) -> Seq<LoadedDependencyView>
    decreases deps.len(),
{
    if deps.len() == 0 {
        Seq::empty()
    } else {
        (match parsed_requirement(deps[0]) {
            Option::Some(n) => seq![
                LoadedDependencyView {
                    name: n,
                    requirement_string: deps[0],
                    source: DependencySourceView::Project,
                },
            ],
            Option::None => Seq::<LoadedDependencyView>::empty(),
        }) + project_dependencies_spec(deps.drop_first())
    }
}

/// Extending the list by one line extends what it parses to.
proof fn lemma_project_dependencies_push(deps: Seq<Seq<char>>, x: Seq<char>)
    ensures
        project_dependencies_spec(deps.push(x)) == project_dependencies_spec(deps) + (
        match parsed_requirement(x) {
            Option::Some(n) => seq![
                LoadedDependencyView {
                    name: n,
                    requirement_string: x,
                    source: DependencySourceView::Project,
                },
            ],
            Option::None => Seq::<LoadedDependencyView>::empty(),
        }),
    decreases deps.len(),
{
    let xe = match parsed_requirement(x) {
        Option::Some(n) => seq![
            LoadedDependencyView {
                name: n,
                requirement_string: x,
                source: DependencySourceView::Project,
            },
        ],
        Option::None => Seq::<LoadedDependencyView>::empty(),
    };
    if deps.len() == 0 {
        assert(deps.push(x)[0] == x);
        assert(deps.push(x).drop_first() =~= Seq::<Seq<char>>::empty());
        assert(project_dependencies_spec(Seq::<Seq<char>>::empty()) =~= Seq::<
            LoadedDependencyView,
        >::empty());
        assert(project_dependencies_spec(deps.push(x)) =~= project_dependencies_spec(deps) + xe);
    } else {
        assert(deps.push(x)[0] == deps[0]);
        assert(deps.push(x).drop_first() =~= deps.drop_first().push(x));
        lemma_project_dependencies_push(deps.drop_first(), x);
        assert(project_dependencies_spec(deps.push(x)) =~= project_dependencies_spec(deps) + xe);
    }
}

/// Push one dependency, tracking the deep view.
fn push_dependency(v: &mut Vec<LoadedDependency>, d: LoadedDependency)
    ensures
        final(v).deep_view() == old(v).deep_view() + seq![d@],
{
    let ghost before = v.deep_view();
    let ghost dv = d@;
    v.push(d);
    proof {
        let now = v.deep_view();
        assert forall|j: int| 0 <= j < now.len() implies now[j] == (before + seq![dv])[j] by {
            assert(now[j] == v@[j]@);
            if j < before.len() {
                assert(before[j] == old(v)@[j]@);
            }
        }
        assert(now =~= before + seq![dv]);
    }
}

/// A package from the lockfile with its locked version.
pub struct LockedPackage {
    /// The package name.
    pub name: String,
    /// The locked version.
    pub version: String,
}

/// The mathematical content of a [`LockedPackage`].
pub ghost struct LockedPackageView {
    pub name: Seq<char>,
    pub version: Seq<char>,
}

impl View for LockedPackage {
    type V = LockedPackageView;

    open spec fn view(&self) -> LockedPackageView {
        LockedPackageView { name: self.name@, version: self.version@ }
    }
}

impl DeepView for LockedPackage {
    type V = LockedPackageView;

    open spec fn deep_view(&self) -> LockedPackageView {
        self.view()
    }
}

/// One entry of a parsed lockfile: a name, and a version where the entry is
/// not a dynamic source tree.
pub struct LockEntry {
    /// The package name.
    pub name: String,
    /// The locked version, absent for dynamic source trees.
    pub version: Option<String>,
}

/// The mathematical content of a [`LockEntry`].
pub ghost struct LockEntryView {
    pub name: Seq<char>,
    pub version: Option<Seq<char>>,
}

impl View for LockEntry {
    type V = LockEntryView;

    open spec fn view(&self) -> LockEntryView {
        LockEntryView {
            name: self.name@,
            version: match self.version {
                Option::Some(v) => Option::Some(v@),
                Option::None => Option::None,
            },
        }
    }
}

impl DeepView for LockEntry {
    type V = LockEntryView;

    open spec fn deep_view(&self) -> LockEntryView {
        self.view()
    }
}

/// Error raised while loading a lockfile.
#[derive(Debug)]
pub enum LockfileLoadError {
    /// The lockfile could not be read.
    ReadError(String),
    /// The lockfile could not be parsed.
    ParseError(String),
    /// The lockfile's format version is not the expected one.
    UnsupportedVersion(u32, u32),
}

/// The lockfile format version this loader expects.
pub const EXPECTED_LOCK_VERSION: u32 = 1;

/// The packages with versions among the lock entries, in order.
pub open spec fn locked_packages_spec(s: Seq<LockEntryView>) -> Seq<LockedPackageView>
    decreases s.len(),
{
    if s.len() == 0 {
        Seq::empty()
    } else {
        (match s[0].version {
            Option::Some(v) => seq![LockedPackageView { name: s[0].name, version: v }],
            Option::None => Seq::<LockedPackageView>::empty(),
        }) + locked_packages_spec(s.drop_first())
    }
}

/// Extending the entries by one extends the locked packages.
proof fn lemma_locked_packages_push(s: Seq<LockEntryView>, x: LockEntryView)
    ensures
        locked_packages_spec(s.push(x)) == locked_packages_spec(s) + (match x.version {
            Option::Some(v) => seq![LockedPackageView { name: x.name, version: v }],
            Option::None => Seq::<LockedPackageView>::empty(),
        }),
    decreases s.len(),
{
    let xe = match x.version {
        Option::Some(v) => seq![LockedPackageView { name: x.name, version: v }],
        Option::None => Seq::<LockedPackageView>::empty(),
    };
    if s.len() == 0 {
        assert(s.push(x)[0] == x);
        assert(s.push(x).drop_first() =~= Seq::<LockEntryView>::empty());
        assert(locked_packages_spec(Seq::<LockEntryView>::empty()) =~= Seq::<
            LockedPackageView,
        >::empty());
        assert(locked_packages_spec(s.push(x)) =~= locked_packages_spec(s) + xe);
    } else {
        assert(s.push(x)[0] == s[0]);
        assert(s.push(x).drop_first() =~= s.drop_first().push(x));
        lemma_locked_packages_push(s.drop_first(), x);
        assert(locked_packages_spec(s.push(x)) =~= locked_packages_spec(s) + xe);
    }
}

/// Loads package versions from lockfile data.
pub struct LockfileLoader;

impl LockfileLoader {
    /// Gather the locked packages from parsed lockfile data. A format
    /// version other than the expected one is an error naming both; entries
    /// without a version (dynamic source trees) are skipped.
    pub fn collect_locked(version: u32, entries: Vec<LockEntry>) -> (r: Result<
        Vec<LockedPackage>,
        LockfileLoadError,
    >)
        ensures
            r is Err <==> version != EXPECTED_LOCK_VERSION,
            r matches Err(e) ==> e == LockfileLoadError::UnsupportedVersion(
                version,
                EXPECTED_LOCK_VERSION,
            ),
            r matches Ok(v) ==> v.deep_view() == locked_packages_spec(entries.deep_view()),
    {
        if version != EXPECTED_LOCK_VERSION {
            return Err(LockfileLoadError::UnsupportedVersion(version, EXPECTED_LOCK_VERSION));
        }
        let ghost views = entries.deep_view();
        let mut out: Vec<LockedPackage> = Vec::new();
        let mut i: usize = 0;
        proof {
            assert(views.take(0) =~= Seq::<LockEntryView>::empty());
            assert(out.deep_view() =~= locked_packages_spec(views.take(0)));
        }
        while i < entries.len()
            invariant
                i <= entries.len(),
                views == entries.deep_view(),
                out.deep_view() == locked_packages_spec(views.take(i as int)),
            decreases entries.len() - i,
        {
            proof {
                lemma_locked_packages_push(views.take(i as int), views[i as int]);
                assert(views.take(i as int + 1) =~= views.take(i as int).push(views[i as int]));
                assert(views[i as int] == entries.deep_view()[i as int]);
            }
            let e = &entries[i];
            match &e.version {
                Option::Some(v) => {
                    let p = LockedPackage { name: e.name.clone(), version: v.clone() };
                    push_locked(&mut out, p);
                    proof {
                        assert(out.deep_view() =~= locked_packages_spec(views.take(i as int + 1)));
                    }
                },
                Option::None => {
                    proof {
                        assert(out.deep_view() =~= locked_packages_spec(views.take(i as int + 1)));
                    }
                },
            }
            i = i + 1;
        }
        proof {
            assert(views.take(views.len() as int) =~= views);
        }
        Ok(out)
    }
}

/// Push one locked package, tracking the deep view.
fn push_locked(v: &mut Vec<LockedPackage>, p: LockedPackage)
    ensures
        final(v).deep_view() == old(v).deep_view() + seq![p@],
{
    let ghost before = v.deep_view();
    let ghost pv = p@;
    v.push(p);
    proof {
        let now = v.deep_view();
        assert forall|j: int| 0 <= j < now.len() implies now[j] == (before + seq![pv])[j] by {
            assert(now[j] == v@[j]@);
            if j < before.len() {
                assert(before[j] == old(v)@[j]@);
            }
        }
        assert(now =~= before + seq![pv]);
    }
}

/// The version recorded for a name, the last occurrence winning.
pub open spec fn version_of(s: Seq<LockedPackageView>, name: Seq<char>) -> Option<Seq<char>>
    decreases s.len(),
{
    if s.len() == 0 {
        Option::None
    } else if s.last().name == name {
        Option::Some(s.last().version)
    } else {
        version_of(s.drop_last(), name)
    }
}

/// A map from package names to locked versions, the last entry per name
/// winning.
pub struct VersionMap {
    /// The locked packages backing the map.
    pub entries: Vec<LockedPackage>,
}

impl VersionMap {
    /// How many entries back the map.
    pub fn len(&self) -> (r: usize)
        ensures
            r == self.entries@.len(),
    {
        self.entries.len()
    }

    /// Whether the map is empty.
    pub fn is_empty(&self) -> (r: bool)
        ensures
            r == (self.entries@.len() == 0),
    {
        self.entries.len() == 0
    }

    /// The version recorded for a name, if any.
    pub fn get(&self, name: &str) -> (r: Option<&String>)
        ensures
            (match (r, version_of(self.entries.deep_view(), name@)) {
                (Option::Some(a), Option::Some(b)) => a@ == b,
                (Option::None, Option::None) => true,
                _ => false,
            }),
    {
        let ghost views = self.entries.deep_view();
        let mut i: usize = self.entries.len();
        proof {
            vstd::std_specs::vec::axiom_spec_len(&self.entries);
            assert(views.take(views.len() as int) =~= views);
        }
        while i > 0
            invariant
                i <= self.entries@.len(),
                views == self.entries.deep_view(),
                version_of(views, name@) == version_of(views.take(i as int), name@),
            decreases i,
        {
            proof {
                let t = views.take(i as int);
                assert(t.last() == views[i as int - 1]);
                assert(t.drop_last() =~= views.take(i as int - 1));
                assert(views[i as int - 1] == self.entries@[i as int - 1]@);
            }
            if crate::strutil::str_eq(self.entries[i - 1].name.as_str(), name) {
                return Some(&self.entries[i - 1].version);
            }
            i = i - 1;
        }
        proof {
            assert(views.take(0) =~= Seq::<LockedPackageView>::empty());
        }
        None
    }
}

/// Errors raised while loading a whole project.
#[derive(Debug)]
pub enum ProjectLoadError {
    /// The manifest could not be read.
    ReadError(String),
    /// Dependency loading failed.
    DependencyError(String),
    /// Lockfile loading failed.
    LockfileError(String),
    /// The manifest could not be parsed.
    ParseError(String),
}

/// Complete loaded project data.
pub struct LoadedProject {
    /// The project name.
    pub name: String,
    /// The project version.
    pub version: Option<String>,
    /// The project root directory.
    pub root: String,
    /// Production dependencies.
    pub dependencies: Vec<Package>,
    /// Development dependencies, de-duplicated by name.
    pub dev_dependencies: Vec<Package>,
    /// Whether the project has a lockfile.
    pub has_lockfile: bool,
}

/// Whether a raw dependency is a development dependency.
pub open spec fn dev_pred() -> spec_fn(LoadedDependencyView) -> bool {
    |d: LoadedDependencyView| source_is_dev(d.source)
}

/// Whether a raw dependency is a production dependency.
pub open spec fn prod_pred() -> spec_fn(LoadedDependencyView) -> bool {
    |d: LoadedDependencyView| !source_is_dev(d.source)
}

/// The development dependencies de-duplicated by name, first occurrence
/// winning, given the names already taken.
pub open spec fn dev_dedup(
    s: Seq<LoadedDependencyView>,
    seen: Set<Seq<char>>,
) -> Seq<LoadedDependencyView>
    decreases s.len(),
{
    if s.len() == 0 {
        s
    } else if seen.contains(s[0].name) {
        dev_dedup(s.drop_first(), seen)
    } else {
        seq![s[0]] + dev_dedup(s.drop_first(), seen.insert(s[0].name))
    }
}

/// How a produced package record mirrors its raw dependency: the name and
/// raw requirement text carry over, the installed version comes from the
/// lock map, the development flag from the source, and everything else takes
/// its default.
pub open spec fn package_matches(
    p: Package,
    d: LoadedDependencyView,
    vm: Seq<LockedPackageView>,
) -> bool {
    &&& p.name@ == d.name
    &&& (p.required_version matches Some(rv) && rv@ == d.requirement_string)
    &&& p.is_dev == source_is_dev(d.source)
    &&& (match (p.installed_version, version_of(vm, d.name)) {
        (Option::Some(a), Option::Some(b)) => a@ == b,
        (Option::None, Option::None) => true,
        _ => false,
    })
    &&& p.latest_version is None
    &&& p.update_available == false
}

/// High-level project loader combining parsed sources.
pub struct ProjectLoader;

impl ProjectLoader {
    /// Build the name-to-version map from the loaded lockfile, empty where
    /// there is none.
    pub fn build_version_map(locked: &Option<Vec<LockedPackage>>) -> (r: VersionMap)
        ensures
            (match locked {
                Option::Some(v) => r.entries.deep_view() == v.deep_view(),
                Option::None => r.entries@.len() == 0,
            }),
    {
        match locked {
            Option::Some(v) => {
                let ghost views = v.deep_view();
                let mut entries: Vec<LockedPackage> = Vec::new();
                let mut i: usize = 0;
                proof {
                    assert(entries.deep_view() =~= views.take(0));
                }
                while i < v.len()
                    invariant
                        i <= v.len(),
                        views == v.deep_view(),
                        entries.deep_view() == views.take(i as int),
                    decreases v.len() - i,
                {
                    proof {
                        assert(views[i as int] == v.deep_view()[i as int]);
                        assert(views.take(i as int + 1) =~= views.take(i as int).push(
                            views[i as int],
                        ));
                    }
                    let p = LockedPackage {
                        name: v[i].name.clone(),
                        version: v[i].version.clone(),
                    };
                    push_locked(&mut entries, p);
                    proof {
                        assert(entries.deep_view() =~= views.take(i as int + 1));
                    }
                    i = i + 1;
                }
                proof {
                    assert(views.take(views.len() as int) =~= views);
                }
                VersionMap { entries }
            },
            Option::None => VersionMap { entries: Vec::new() },
        }
    }

    /// Categorize raw dependencies and enrich them with locked versions:
    /// production dependencies in declaration order, development dependencies
    /// de-duplicated by name with the first occurrence kept.
    pub fn categorize_and_enrich(
        raw_deps: &Vec<LoadedDependency>,
        version_map: &VersionMap,
    ) -> (r: (Vec<Package>, Vec<Package>))
        ensures
            ({
                let raw = raw_deps.deep_view();
                let vm = version_map.entries.deep_view();
                let prod = raw.filter(prod_pred());
                let devs = dev_dedup(raw.filter(dev_pred()), Set::empty());
                &&& r.0@.len() == prod.len()
                &&& forall|k: int|
                    0 <= k < prod.len() ==> package_matches(#[trigger] r.0@[k], prod[k], vm)
                &&& r.1@.len() == devs.len()
                &&& forall|k: int|
                    0 <= k < devs.len() ==> package_matches(#[trigger] r.1@[k], devs[k], vm)
            }),
    {
        let ghost raw = raw_deps.deep_view();
        let ghost vm = version_map.entries.deep_view();
        let mut prod_out: Vec<Package> = Vec::new();
        let mut dev_out: Vec<Package> = Vec::new();
        let ghost mut dev_taken: Seq<LoadedDependencyView> = Seq::empty();
        let ghost mut seen: Set<Seq<char>> = Set::empty();
        let mut i: usize = 0;
        proof {
            reveal(Seq::filter);
            assert(raw.take(0) =~= Seq::<LoadedDependencyView>::empty());
            assert(raw.take(0).filter(prod_pred()) =~= Seq::<LoadedDependencyView>::empty());
            assert(raw.take(0).filter(dev_pred()) =~= Seq::<LoadedDependencyView>::empty());
            assert(raw.filter(dev_pred()).skip(0) =~= raw.filter(dev_pred()));
            assert(dev_taken + dev_dedup(raw.filter(dev_pred()).skip(0), seen) =~= dev_dedup(
                raw.filter(dev_pred()),
                Set::empty(),
            ));
            assert(raw.filter(dev_pred()).take(0) =~= Seq::<LoadedDependencyView>::empty());
        }
        while i < raw_deps.len()
            invariant
                i <= raw_deps.len(),
                raw == raw_deps.deep_view(),
                vm == version_map.entries.deep_view(),
                prod_out@.len() == raw.take(i as int).filter(prod_pred()).len(),
                forall|k: int|
                    0 <= k < prod_out@.len() ==> package_matches(
                        #[trigger] prod_out@[k],
                        raw.take(i as int).filter(prod_pred())[k],
                        vm,
                    ),
                dev_dedup(raw.filter(dev_pred()), Set::empty()) == dev_taken + dev_dedup(
                    raw.filter(dev_pred()).skip(
                        raw.take(i as int).filter(dev_pred()).len() as int,
                    ),
                    seen,
                ),
                raw.take(i as int).filter(dev_pred()).len() <= raw.filter(dev_pred()).len(),
                raw.take(i as int).filter(dev_pred()) == raw.filter(dev_pred()).take(
                    raw.take(i as int).filter(dev_pred()).len() as int,
                ),
                dev_out@.len() == dev_taken.len(),
                forall|k: int|
                    0 <= k < dev_taken.len() ==> package_matches(
                        #[trigger] dev_out@[k],
                        dev_taken[k],
                        vm,
                    ),
                seen =~= Set::new(
                    |n: Seq<char>|
                        exists|j: int|
                            0 <= j < dev_taken.len() && (#[trigger] dev_taken[j]).name == n,
                ),
            decreases raw_deps.len() - i,
        {
            let ghost done = raw.take(i as int).filter(dev_pred()).len() as int;
            let ghost kept = raw.filter(dev_pred());
            proof {
                crate::strutil::lemma_filter_take_one_more(raw, i as int, prod_pred());
                crate::strutil::lemma_filter_take_one_more(raw, i as int, dev_pred());
                crate::strutil::lemma_filter_split(raw, i as int, dev_pred());
                assert(raw.skip(i as int)[0] == raw[i as int]);
                assert(raw.skip(i as int) =~= seq![raw[i as int]] + raw.skip(i as int + 1));
                crate::strutil::lemma_filter_singleton(raw[i as int], dev_pred());
                assert(raw[i as int] == raw_deps.deep_view()[i as int]);
            }
            let d = &raw_deps[i];
            let dev = d.is_dev();
            let installed = version_map.get(d.name.as_str());
            let installed_version = match installed {
                Option::Some(v) => Some(v.clone()),
                Option::None => None,
            };
            let mut package = Package::empty();
            package.name = d.name.clone();
            package.installed_version = installed_version;
            package.required_version = Some(d.requirement_string.clone());
            package.is_dev = dev;
            proof {
                assert(package_matches(package, raw[i as int], vm));
            }
            if dev {
                proof {
                    assert(kept == raw.take(i as int).filter(dev_pred()) + raw.skip(
                        i as int,
                    ).filter(dev_pred()));
                    assert(raw.skip(i as int).filter(dev_pred()) == seq![raw[i as int]]
                        + raw.skip(i as int + 1).filter(dev_pred()));
                    assert(kept.skip(done)[0] == kept[done]);
                    assert(kept[done] == raw[i as int]);
                    assert(kept.take(done + 1) =~= kept.take(done) + seq![kept[done]]);
                    assert(raw.take(i as int + 1).filter(dev_pred()) == kept.take(done + 1));
                    assert(kept.skip(done).drop_first() =~= kept.skip(done + 1));
                }
                let dup = contains_dev_name(&dev_out, d.name.as_str());
                proof {
                    assert(dup == seen.contains(raw[i as int].name)) by {
                        if dup {
                            let j = choose|j: int|
                                0 <= j < dev_out@.len() && (#[trigger] dev_out@[j]).name@
                                    == raw[i as int].name;
                            assert(dev_taken[j].name == raw[i as int].name);
                        }
                        if seen.contains(raw[i as int].name) {
                            let j = choose|j: int|
                                0 <= j < dev_taken.len() && (#[trigger] dev_taken[j]).name
                                    == raw[i as int].name;
                            assert(dev_out@[j].name@ == raw[i as int].name);
                        }
                    }
                }
                if !dup {
                    dev_out.push(package);
                    proof {
                        let before_taken = dev_taken;
                        dev_taken = dev_taken.push(raw[i as int]);
                        seen = seen.insert(raw[i as int].name);
                        assert(seen =~= Set::new(
                            |n: Seq<char>|
                                exists|j: int|
                                    0 <= j < dev_taken.len() && (#[trigger] dev_taken[j]).name
                                        == n,
                        )) by {
                            assert forall|n: Seq<char>| seen.contains(n) implies exists|j: int|
                                0 <= j < dev_taken.len() && (#[trigger] dev_taken[j]).name
                                    == n by {
                                if n == raw[i as int].name {
                                    assert(dev_taken[dev_taken.len() - 1].name == n);
                                } else {
                                    let j = choose|j: int|
                                        0 <= j < before_taken.len() && (
                                        #[trigger] before_taken[j]).name == n;
                                    assert(dev_taken[j].name == n);
                                }
                            }
                            assert forall|n: Seq<char>|
                                (exists|j: int|
                                    0 <= j < dev_taken.len() && (#[trigger] dev_taken[j]).name
                                        == n) implies seen.contains(n) by {
                                let j = choose|j: int|
                                    0 <= j < dev_taken.len() && (#[trigger] dev_taken[j]).name
                                        == n;
                                if j < dev_taken.len() - 1 {
                                    assert(before_taken[j].name == n);
                                }
                            }
                        }
                    }
                }
                proof {
                    assert(dev_dedup(kept, Set::empty()) == dev_taken + dev_dedup(
                        kept.skip(done + 1),
                        seen,
                    ));
                }
            } else {
                prod_out.push(package);
                proof {
                    assert(raw.take(i as int + 1).filter(dev_pred()) == raw.take(i as int).filter(
                        dev_pred(),
                    ));
                }
            }
            i = i + 1;
        }
        proof {
            assert(raw.take(raw.len() as int) =~= raw);
            let kept = raw.filter(dev_pred());
            assert(kept.skip(kept.len() as int) =~= Seq::<LoadedDependencyView>::empty());
            assert(dev_dedup(Seq::<LoadedDependencyView>::empty(), seen) =~= Seq::<
                LoadedDependencyView,
            >::empty());
            assert(dev_taken =~= dev_dedup(kept, Set::empty()));
            assert(kept.take(kept.len() as int) =~= kept);
        }
        (prod_out, dev_out)
    }
}

/// Whether a development package with this name was already produced.
fn contains_dev_name(dev_out: &Vec<Package>, name: &str) -> (r: bool)
    ensures
        r == exists|j: int|
            0 <= j < dev_out@.len() && (#[trigger] dev_out@[j]).name@ == name@,
{
    let mut k: usize = 0;
    while k < dev_out.len()
        invariant
            k <= dev_out@.len(),
            forall|j: int| 0 <= j < k ==> (#[trigger] dev_out@[j]).name@ != name@,
        decreases dev_out@.len() - k,
    {
        if crate::strutil::str_eq(dev_out[k].name.as_str(), name) {
            return true;
        }
        k = k + 1;
    }
    false
}

impl ProjectLoader {
    /// Combine parsed project data into one loaded project: a missing name
    /// reads as unknown, dependencies are categorized and enriched against
    /// the lockfile, and the lockfile's presence is recorded.
    pub fn assemble(
        name: Option<String>,
        version: Option<String>,
        root: String,
        raw_deps: &Vec<LoadedDependency>,
        locked: &Option<Vec<LockedPackage>>,
    ) -> (r: LoadedProject)
        ensures
            (match name {
                Option::Some(n) => r.name@ == n@,
                Option::None => r.name@ == "Unknown"@,
            }),
            (match (r.version, version) {
                (Option::Some(a), Option::Some(b)) => a@ == b@,
                (Option::None, Option::None) => true,
                _ => false,
            }),
            r.root@ == root@,
            r.has_lockfile == locked is Some,
            ({
                let raw = raw_deps.deep_view();
                let vm = match locked {
                    Option::Some(v) => v.deep_view(),
                    Option::None => Seq::<LockedPackageView>::empty(),
                };
                let prod = raw.filter(prod_pred());
                let devs = dev_dedup(raw.filter(dev_pred()), Set::empty());
                &&& r.dependencies@.len() == prod.len()
                &&& forall|k: int|
                    0 <= k < prod.len() ==> package_matches(
                        #[trigger] r.dependencies@[k],
                        prod[k],
                        vm,
                    )
                &&& r.dev_dependencies@.len() == devs.len()
                &&& forall|k: int|
                    0 <= k < devs.len() ==> package_matches(
                        #[trigger] r.dev_dependencies@[k],
                        devs[k],
                        vm,
                    )
            }),
    {
        let project_name = match name {
            Option::Some(n) => n,
            Option::None => String::from_str("Unknown"),
        };
        let has_lockfile = locked.is_some();
        let version_map = ProjectLoader::build_version_map(locked);
        proof {
            if locked is None {
                assert(version_map.entries.deep_view() =~= Seq::<LockedPackageView>::empty());
            }
        }
        let (dependencies, dev_dependencies) = ProjectLoader::categorize_and_enrich(
            raw_deps,
            &version_map,
        );
        LoadedProject {
            name: project_name,
            version,
            root,
            dependencies,
            dev_dependencies,
            has_lockfile,
        }
    }
}

/// One optional-dependency or group entry of a manifest: the extra or group
/// name, and its requirement lines.
pub struct RequirementGroup {
    /// The extra or group name.
    pub name: String,
    /// The requirement lines declared under it.
    pub requirements: Vec<String>,
}

/// The mathematical content of a [`RequirementGroup`].
pub ghost struct RequirementGroupView {
    pub name: Seq<char>,
    pub requirements: Seq<Seq<char>>,
}

impl View for RequirementGroup {
    type V = RequirementGroupView;

    open spec fn view(&self) -> RequirementGroupView {
        RequirementGroupView { name: self.name@, requirements: self.requirements.deep_view() }
    }
}

impl DeepView for RequirementGroup {
    type V = RequirementGroupView;

    open spec fn deep_view(&self) -> RequirementGroupView {
        self.view()
    }
}

/// A development dependency already carried as a typed requirement: its
/// normalized name and its rendered text.
pub struct DevRequirement {
    /// The package name, already normalized.
    pub name: String,
    /// The requirement rendered as text.
    pub text: String,
}

/// The mathematical content of a [`DevRequirement`].
pub ghost struct DevRequirementView {
    pub name: Seq<char>,
    pub text: Seq<char>,
}

impl View for DevRequirement {
    type V = DevRequirementView;

    open spec fn view(&self) -> DevRequirementView {
        DevRequirementView { name: self.name@, text: self.text@ }
    }
}

impl DeepView for DevRequirement {
    type V = DevRequirementView;

    open spec fn deep_view(&self) -> DevRequirementView {
        self.view()
    }
}

/// What one list of requirement lines parses to under a source.
pub open spec fn parsed_list_spec(
    deps: Seq<Seq<char>>,
    source: DependencySourceView,
) -> Seq<LoadedDependencyView>
    decreases deps.len(),
{
    if deps.len() == 0 {
        Seq::empty()
    } else {
        (match parsed_requirement(deps[0]) {
            Option::Some(n) => seq![
                LoadedDependencyView { name: n, requirement_string: deps[0], source },
            ],
            Option::None => Seq::<LoadedDependencyView>::empty(),
        }) + parsed_list_spec(deps.drop_first(), source)
    }
}

/// Extending a list by one line extends what it parses to.
proof fn lemma_parsed_list_push(deps: Seq<Seq<char>>, x: Seq<char>, source: DependencySourceView)
    ensures
        parsed_list_spec(deps.push(x), source) == parsed_list_spec(deps, source) + (
        match parsed_requirement(x) {
            Option::Some(n) => seq![
                LoadedDependencyView { name: n, requirement_string: x, source },
            ],
            Option::None => Seq::<LoadedDependencyView>::empty(),
        }),
    decreases deps.len(),
{
    let xe = match parsed_requirement(x) {
        Option::Some(n) => seq![LoadedDependencyView { name: n, requirement_string: x, source }],
        Option::None => Seq::<LoadedDependencyView>::empty(),
    };
    if deps.len() == 0 {
        assert(deps.push(x)[0] == x);
        assert(deps.push(x).drop_first() =~= Seq::<Seq<char>>::empty());
        assert(parsed_list_spec(Seq::<Seq<char>>::empty(), source) =~= Seq::<
            LoadedDependencyView,
        >::empty());
        assert(parsed_list_spec(deps.push(x), source) =~= parsed_list_spec(deps, source) + xe);
    } else {
        assert(deps.push(x)[0] == deps[0]);
        assert(deps.push(x).drop_first() =~= deps.drop_first().push(x));
        lemma_parsed_list_push(deps.drop_first(), x, source);
        assert(parsed_list_spec(deps.push(x), source) =~= parsed_list_spec(deps, source) + xe);
    }
}

/// What the optional-dependency groups parse to: each group's lines under
/// the extra's source, group after group.
pub open spec fn optional_dependencies_spec(gs: Seq<RequirementGroupView>) -> Seq<
    LoadedDependencyView,
>
    decreases gs.len(),
{
    if gs.len() == 0 {
        Seq::empty()
    } else {
        parsed_list_spec(
            gs[0].requirements,
            DependencySourceView::OptionalDependency(gs[0].name),
        ) + optional_dependencies_spec(gs.drop_first())
    }
}

/// What the named dependency groups parse to, likewise.
pub open spec fn dependency_groups_spec(gs: Seq<RequirementGroupView>) -> Seq<
    LoadedDependencyView,
>
    decreases gs.len(),
{
    if gs.len() == 0 {
        Seq::empty()
    } else {
        parsed_list_spec(
            gs[0].requirements,
            DependencySourceView::DependencyGroup(gs[0].name),
        ) + dependency_groups_spec(gs.drop_first())
    }
}

/// What the tool-specific development dependencies map to: one loaded
/// dependency per typed requirement, name and text carried over.
pub open spec fn dev_dependencies_spec(ds: Seq<DevRequirementView>) -> Seq<LoadedDependencyView> {
    ds.map_values(
        |d: DevRequirementView|
            LoadedDependencyView {
                name: d.name,
                requirement_string: d.text,
                source: DependencySourceView::ToolUvDevDependencies,
            },
    )
}

/// Extending the optional groups by one appends its parsed lines.
proof fn lemma_optional_push(gs: Seq<RequirementGroupView>, x: RequirementGroupView)
    ensures
        optional_dependencies_spec(gs.push(x)) == optional_dependencies_spec(gs)
            + parsed_list_spec(x.requirements, DependencySourceView::OptionalDependency(x.name)),
    decreases gs.len(),
{
    if gs.len() == 0 {
        assert(gs.push(x)[0] == x);
        assert(gs.push(x).drop_first() =~= Seq::<RequirementGroupView>::empty());
        assert(optional_dependencies_spec(Seq::<RequirementGroupView>::empty()) =~= Seq::<
            LoadedDependencyView,
        >::empty());
        assert(optional_dependencies_spec(gs.push(x)) =~= optional_dependencies_spec(gs)
            + parsed_list_spec(x.requirements, DependencySourceView::OptionalDependency(x.name)));
    } else {
        assert(gs.push(x)[0] == gs[0]);
        assert(gs.push(x).drop_first() =~= gs.drop_first().push(x));
        lemma_optional_push(gs.drop_first(), x);
        assert(optional_dependencies_spec(gs.push(x)) =~= optional_dependencies_spec(gs)
            + parsed_list_spec(x.requirements, DependencySourceView::OptionalDependency(x.name)));
    }
}

/// Extending the named groups by one appends its parsed lines.
proof fn lemma_groups_push(gs: Seq<RequirementGroupView>, x: RequirementGroupView)
    ensures
        dependency_groups_spec(gs.push(x)) == dependency_groups_spec(gs) + parsed_list_spec(
            x.requirements,
            DependencySourceView::DependencyGroup(x.name),
        ),
    decreases gs.len(),
{
    if gs.len() == 0 {
        assert(gs.push(x)[0] == x);
        assert(gs.push(x).drop_first() =~= Seq::<RequirementGroupView>::empty());
        assert(dependency_groups_spec(Seq::<RequirementGroupView>::empty()) =~= Seq::<
            LoadedDependencyView,
        >::empty());
        assert(dependency_groups_spec(gs.push(x)) =~= dependency_groups_spec(gs)
            + parsed_list_spec(x.requirements, DependencySourceView::DependencyGroup(x.name)));
    } else {
        assert(gs.push(x)[0] == gs[0]);
        assert(gs.push(x).drop_first() =~= gs.drop_first().push(x));
        lemma_groups_push(gs.drop_first(), x);
        assert(dependency_groups_spec(gs.push(x)) =~= dependency_groups_spec(gs)
            + parsed_list_spec(x.requirements, DependencySourceView::DependencyGroup(x.name)));
    }
}

impl DependencyLoader {
    /// Parse one group's requirement lines under a source.
    fn parse_list(deps: &Vec<String>, source: &DependencySource) -> (r: Vec<LoadedDependency>)
        ensures
            r.deep_view() == parsed_list_spec(deps.deep_view(), source@),
    {
        let ghost views = deps.deep_view();
        let ghost sview = source@;
        let mut r: Vec<LoadedDependency> = Vec::new();
        let mut i: usize = 0;
        proof {
            assert(views.take(0) =~= Seq::<Seq<char>>::empty());
            assert(r.deep_view() =~= parsed_list_spec(views.take(0), sview));
        }
        while i < deps.len()
            invariant
                i <= deps.len(),
                views == deps.deep_view(),
                sview == source@,
                r.deep_view() == parsed_list_spec(views.take(i as int), sview),
            decreases deps.len() - i,
        {
            proof {
                lemma_parsed_list_push(views.take(i as int), views[i as int], sview);
                assert(views.take(i as int + 1) =~= views.take(i as int).push(views[i as int]));
                assert(views[i as int] == deps.deep_view()[i as int]);
                assert(deps.deep_view()[i as int] == deps@[i as int]@);
            }
            let parsed = DependencyLoader::parse_requirement(
                deps[i].as_str(),
                clone_source(source),
            );
            match parsed {
                Option::Some(d) => {
                    push_dependency(&mut r, d);
                    proof {
                        assert(r.deep_view() =~= parsed_list_spec(views.take(i as int + 1), sview));
                    }
                },
                Option::None => {
                    proof {
                        assert(r.deep_view() =~= parsed_list_spec(views.take(i as int + 1), sview));
                    }
                },
            }
            i = i + 1;
        }
        proof {
            assert(views.take(views.len() as int) =~= views);
        }
        r
    }

    /// Parse the optional-dependency groups: all extras, in manifest order.
    pub fn load_optional_dependencies(groups: &Vec<RequirementGroup>) -> (r: Vec<
        LoadedDependency,
    >)
        ensures
            r.deep_view() == optional_dependencies_spec(groups.deep_view()),
    {
        let ghost views = groups.deep_view();
        let mut r: Vec<LoadedDependency> = Vec::new();
        let mut i: usize = 0;
        proof {
            assert(views.take(0) =~= Seq::<RequirementGroupView>::empty());
            assert(r.deep_view() =~= optional_dependencies_spec(views.take(0)));
        }
        while i < groups.len()
            invariant
                i <= groups.len(),
                views == groups.deep_view(),
                r.deep_view() == optional_dependencies_spec(views.take(i as int)),
            decreases groups.len() - i,
        {
            proof {
                lemma_optional_push(views.take(i as int), views[i as int]);
                assert(views.take(i as int + 1) =~= views.take(i as int).push(views[i as int]));
                assert(views[i as int] == groups.deep_view()[i as int]);
                assert(groups.deep_view()[i as int] == groups@[i as int]@);
            }
            let g = &groups[i];
            let source = DependencySource::OptionalDependency(g.name.clone());
            let mut parsed = DependencyLoader::parse_list(&g.requirements, &source);
            append_dependencies(&mut r, &mut parsed);
            proof {
                assert(r.deep_view() =~= optional_dependencies_spec(views.take(i as int + 1)));
            }
            i = i + 1;
        }
        proof {
            assert(views.take(views.len() as int) =~= views);
        }
        r
    }

    /// Map the tool-specific development dependencies, which arrive already
    /// parsed and normalized.
    pub fn load_tool_uv_dev_dependencies(devs: &Vec<DevRequirement>) -> (r: Vec<
        LoadedDependency,
    >)
        ensures
            r.deep_view() == dev_dependencies_spec(devs.deep_view()),
    {
        let ghost views = devs.deep_view();
        let ghost goal = dev_dependencies_spec(views);
        let mut r: Vec<LoadedDependency> = Vec::new();
        let mut i: usize = 0;
        proof {
            assert(r.deep_view() =~= goal.take(0));
        }
        while i < devs.len()
            invariant
                i <= devs.len(),
                views == devs.deep_view(),
                goal == dev_dependencies_spec(views),
                r.deep_view() == goal.take(i as int),
            decreases devs.len() - i,
        {
            proof {
                assert(views[i as int] == devs.deep_view()[i as int]);
                assert(devs.deep_view()[i as int] == devs@[i as int]@);
            }
            let d = &devs[i];
            let dep = LoadedDependency {
                name: d.name.clone(),
                requirement_string: d.text.clone(),
                source: DependencySource::ToolUvDevDependencies,
            };
            push_dependency(&mut r, dep);
            proof {
                assert(r.deep_view() =~= goal.take(i as int + 1));
            }
            i = i + 1;
        }
        proof {
            assert(goal.take(goal.len() as int) =~= goal);
        }
        r
    }

    /// Parse the named dependency groups; entries that only include another
    /// group are resolved elsewhere and arrive already flattened out.
    pub fn load_dependency_groups(groups: &Vec<RequirementGroup>) -> (r: Vec<LoadedDependency>)
        ensures
            r.deep_view() == dependency_groups_spec(groups.deep_view()),
    {
        let ghost views = groups.deep_view();
        let mut r: Vec<LoadedDependency> = Vec::new();
        let mut i: usize = 0;
        proof {
            assert(views.take(0) =~= Seq::<RequirementGroupView>::empty());
            assert(r.deep_view() =~= dependency_groups_spec(views.take(0)));
        }
        while i < groups.len()
            invariant
                i <= groups.len(),
                views == groups.deep_view(),
                r.deep_view() == dependency_groups_spec(views.take(i as int)),
            decreases groups.len() - i,
        {
            proof {
                lemma_groups_push(views.take(i as int), views[i as int]);
                assert(views.take(i as int + 1) =~= views.take(i as int).push(views[i as int]));
                assert(views[i as int] == groups.deep_view()[i as int]);
                assert(groups.deep_view()[i as int] == groups@[i as int]@);
            }
            let g = &groups[i];
            let source = DependencySource::DependencyGroup(g.name.clone());
            let mut parsed = DependencyLoader::parse_list(&g.requirements, &source);
            append_dependencies(&mut r, &mut parsed);
            proof {
                assert(r.deep_view() =~= dependency_groups_spec(views.take(i as int + 1)));
            }
            i = i + 1;
        }
        proof {
            assert(views.take(views.len() as int) =~= views);
        }
        r
    }

    /// Load all dependencies of a manifest, category by category: the main
    /// list, the optional extras, the tool-specific development list, and the
    /// named groups, in that order.
    pub fn load(
        project_dependencies: &Vec<String>,
        optional_groups: &Vec<RequirementGroup>,
        dev_requirements: &Vec<DevRequirement>,
        dependency_groups: &Vec<RequirementGroup>,
    ) -> (r: Vec<LoadedDependency>)
        ensures
            r.deep_view() == project_dependencies_spec(project_dependencies.deep_view())
                + optional_dependencies_spec(optional_groups.deep_view())
                + dev_dependencies_spec(dev_requirements.deep_view()) + dependency_groups_spec(
                dependency_groups.deep_view(),
            ),
    {
        let mut r = DependencyLoader::load_project_dependencies(project_dependencies);
        let mut optional = DependencyLoader::load_optional_dependencies(optional_groups);
        append_dependencies(&mut r, &mut optional);
        let mut devs = DependencyLoader::load_tool_uv_dev_dependencies(dev_requirements);
        append_dependencies(&mut r, &mut devs);
        let mut grouped = DependencyLoader::load_dependency_groups(dependency_groups);
        append_dependencies(&mut r, &mut grouped);
        proof {
            assert(r.deep_view() =~= project_dependencies_spec(
                project_dependencies.deep_view(),
            ) + optional_dependencies_spec(optional_groups.deep_view()) + dev_dependencies_spec(
                dev_requirements.deep_view(),
            ) + dependency_groups_spec(dependency_groups.deep_view()));
        }
        r
    }
}

/// Clone a dependency source, keeping its mathematical content.
fn clone_source(s: &DependencySource) -> (r: DependencySource)
    ensures
        r@ == s@,
{
    match s {
        DependencySource::Project => DependencySource::Project,
        DependencySource::OptionalDependency(e) => DependencySource::OptionalDependency(
            e.clone(),
        ),
        DependencySource::ToolUvDevDependencies => DependencySource::ToolUvDevDependencies,
        DependencySource::DependencyGroup(g) => DependencySource::DependencyGroup(g.clone()),
    }
}

/// Move the second list's dependencies after the first's.
fn append_dependencies(first: &mut Vec<LoadedDependency>, second: &mut Vec<LoadedDependency>)
    ensures
        final(first).deep_view() == old(first).deep_view() + old(second).deep_view(),
{
    let ghost fv = first.deep_view();
    let ghost sv = second.deep_view();
    first.append(second);
    proof {
        let dv = first.deep_view();
        assert forall|j: int| 0 <= j < dv.len() implies dv[j] == (fv + sv)[j] by {
            assert(dv[j] == first@[j]@);
            if j < fv.len() {
                assert(fv[j] == old(first)@[j]@);
            } else {
                assert(sv[j - fv.len()] == old(second)@[j - fv.len()]@);
            }
        }
        assert(dv =~= fv + sv);
    }
}

} // verus!
