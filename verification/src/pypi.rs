//! Package metadata as the package-index JSON API reports it, and its
//! conversion into the library's package records. The network call itself
//! lives outside; the library validates lookup names, forms the request URL,
//! and converts the fetched metadata.

use vstd::prelude::*;
use vstd::string::StrSliceExecFns;
use vstd::string::StringExecFns;

use crate::project_state::Package;
use crate::textscan::{
    char_eq_pred, is_alphanumeric_char, nonempty_pred, split_on, trim, trim_spec,
};

verus! {

/// Error raised while looking a package up on the index.
#[derive(Debug)]
pub enum PyPiSearchError {
    /// The requested package was not found.
    NotFound(String),
    /// Network or transport error, rendered as text.
    Network(String),
    /// The package name is invalid.
    InvalidName(String),
}

/// Full response of the index for a package.
pub struct PyPiPackageResponse {
    /// Package metadata.
    pub info: PyPiPackageInfo,
    /// All available releases, keyed by version.
    pub releases: Vec<PyPiRelease>,
}

/// One release: a version and its files.
pub struct PyPiRelease {
    /// The release version.
    pub version: String,
    /// The files uploaded for it.
    pub files: Vec<PyPiReleaseFile>,
}

/// Package metadata from the index.
pub struct PyPiPackageInfo {
    /// The package name (normalized).
    pub name: String,
    /// The latest version.
    pub version: String,
    /// Short description (summary).
    pub summary: String,
    /// Full description.
    pub description: Option<String>,
    /// Package author.
    pub author: Option<String>,
    /// Author email.
    pub author_email: Option<String>,
    /// Package license.
    pub license: Option<String>,
    /// Homepage URL.
    pub home_page: Option<String>,
    /// Project URLs by label.
    pub project_urls: Option<Vec<(String, String)>>,
    /// Comma-separated keywords.
    pub keywords: Option<String>,
    /// Python version requirement.
    pub requires_python: Option<String>,
    /// Package dependencies as requirement strings.
    pub requires_dist: Option<Vec<String>>,
}

/// Information about a release file.
pub struct PyPiReleaseFile {
    /// The filename.
    pub filename: String,
    /// File size in bytes.
    pub size: Option<u64>,
    /// Upload timestamp, as reported.
    pub upload_time: Option<String>,
}

/// The value under the first pair carrying the given label.
pub open spec fn labeled_url(pairs: Seq<(Seq<char>, Seq<char>)>, label: Seq<char>) -> Option<
    Seq<char>,
>
    decreases pairs.len(),
{
    if pairs.len() == 0 {
        Option::None
    } else if pairs[0].0 == label {
        Option::Some(pairs[0].1)
    } else {
        labeled_url(pairs.drop_first(), label)
    }
}

/// The label pairs of the metadata, as sequences.
pub open spec fn url_pairs(urls: Option<Vec<(String, String)>>) -> Option<
    Seq<(Seq<char>, Seq<char>)>,
> {
    match urls {
        Option::Some(v) => Option::Some(
            v@.map_values(|p: (String, String)| (p.0@, p.1@)),
        ),
        Option::None => Option::None,
    }
}

/// The repository URL: the source label, else the repository label, else the
/// hosting label.
pub open spec fn repository_spec(urls: Option<Seq<(Seq<char>, Seq<char>)>>) -> Option<Seq<char>> {
    match urls {
        Option::Some(pairs) => {
            match labeled_url(pairs, "Source"@) {
                Option::Some(u) => Option::Some(u),
                Option::None => match labeled_url(pairs, "Repository"@) {
                    Option::Some(u) => Option::Some(u),
                    Option::None => labeled_url(pairs, "GitHub"@),
                },
            }
        },
        Option::None => Option::None,
    }
}

/// The documentation URL, by its label.
pub open spec fn documentation_spec(urls: Option<Seq<(Seq<char>, Seq<char>)>>) -> Option<
    Seq<char>,
> {
    match urls {
        Option::Some(pairs) => labeled_url(pairs, "Documentation"@),
        Option::None => Option::None,
    }
}

/// The keyword list: the comma-separated pieces, trimmed, empties dropped.
pub open spec fn keywords_spec(k: Option<Seq<char>>) -> Seq<Seq<char>> {
    match k {
        Option::Some(s) => split_on(s, char_eq_pred(',')).map_values(
            |piece: Seq<char>| trim_spec(piece),
        ).filter(nonempty_pred()),
        Option::None => Seq::empty(),
    }
}

/// A character a dependency name may carry.
pub open spec fn name_char_pred() -> spec_fn(char) -> bool {
    |c: char| is_alphanumeric_char(c) || c == '-' || c == '_'
}

/// The names of the declared dependencies: each requirement string's leading
/// run of name characters, empties dropped.
pub open spec fn dependency_names_spec(rd: Option<Seq<Seq<char>>>) -> Seq<Seq<char>> {
    match rd {
        Option::Some(deps) => deps.map_values(
            |d: Seq<char>| d.take(crate::textscan::find_first(d, |c: char| !(name_char_pred()(c)))),
        ).filter(nonempty_pred()),
        Option::None => Seq::empty(),
    }
}

impl PyPiPackageInfo {
    /// Convert index metadata to the library's package record: the name and
    /// latest version carry over, the summary becomes the description unless
    /// empty, the repository and documentation URLs come from the labeled
    /// project URLs, keywords are split at commas, and dependencies keep
    /// their leading name only. Everything else takes its default.
    pub fn into_package(self) -> (r: Package)
        ensures
            r.name@ == self.name@,
            r.latest_version matches Some(v) && v@ == self.version@,
            self.summary@.len() == 0 ==> r.description is None,
            self.summary@.len() > 0 ==> (r.description matches Some(d) && d@ == self.summary@),
            (match (r.homepage, self.home_page) {
                (Option::Some(a), Option::Some(b)) => a@ == b@,
                (Option::None, Option::None) => true,
                _ => false,
            }),
            (match (r.license, self.license) {
                (Option::Some(a), Option::Some(b)) => a@ == b@,
                (Option::None, Option::None) => true,
                _ => false,
            }),
            (match (r.repository, repository_spec(url_pairs(self.project_urls))) {
                (Option::Some(a), Option::Some(b)) => a@ == b,
                (Option::None, Option::None) => true,
                _ => false,
            }),
            (match (r.documentation, documentation_spec(url_pairs(self.project_urls))) {
                (Option::Some(a), Option::Some(b)) => a@ == b,
                (Option::None, Option::None) => true,
                _ => false,
            }),
            r.keywords.deep_view() == keywords_spec(
                match self.keywords {
                    Option::Some(k) => Option::Some(k@),
                    Option::None => Option::None,
                },
            ),
            r.dependencies.deep_view() == dependency_names_spec(
                match self.requires_dist {
                    Option::Some(d) => Option::Some(d.deep_view()),
                    Option::None => Option::None,
                },
            ),
            r.installed_version is None,
            r.required_version is None,
            r.is_dev == false,
            r.update_available == false,
            r.authors@.len() == 0,
    {
        let repository = lookup_repository(&self.project_urls);
        let documentation = lookup_documentation(&self.project_urls);
        let keywords = match &self.keywords {
            Option::Some(k) => split_keywords(k.as_str()),
            Option::None => Vec::new(),
        };
        proof {
            if self.keywords is None {
                assert(keywords.deep_view() =~= Seq::<Seq<char>>::empty());
            }
        }
        let dependencies = match &self.requires_dist {
            Option::Some(deps) => dependency_names(deps),
            Option::None => Vec::new(),
        };
        proof {
            if self.requires_dist is None {
                assert(dependencies.deep_view() =~= Seq::<Seq<char>>::empty());
            }
        }
        let description = if self.summary.as_str().unicode_len() == 0 {
            None
        } else {
            Some(self.summary)
        };
        let mut p = Package::empty();
        p.name = self.name;
        p.latest_version = Some(self.version);
        p.description = description;
        p.homepage = self.home_page;
        p.documentation = documentation;
        p.repository = repository;
        p.license = self.license;
        p.keywords = keywords;
        p.dependencies = dependencies;
        p
    }
}

/// Look a label up among the project URLs, first match winning.
fn lookup_label(urls: &Vec<(String, String)>, label: &str) -> (r: Option<String>)
    ensures
        (match (r, labeled_url(
            urls@.map_values(|p: (String, String)| (p.0@, p.1@)),
            label@,
        )) {
            (Option::Some(a), Option::Some(b)) => a@ == b,
            (Option::None, Option::None) => true,
            _ => false,
        }),
{
    let ghost pairs = urls@.map_values(|p: (String, String)| (p.0@, p.1@));
    let mut i: usize = 0;
    proof {
        assert(pairs.skip(0) =~= pairs);
    }
    while i < urls.len()
        invariant
            i <= urls.len(),
            pairs == urls@.map_values(|p: (String, String)| (p.0@, p.1@)),
            labeled_url(pairs, label@) == labeled_url(pairs.skip(i as int), label@),
        decreases urls.len() - i,
    {
        proof {
            assert(pairs.skip(i as int)[0] == pairs[i as int]);
            assert(pairs.skip(i as int).drop_first() =~= pairs.skip(i as int + 1));
        }
        if crate::strutil::str_eq(urls[i].0.as_str(), label) {
            return Some(urls[i].1.clone());
        }
        i = i + 1;
    }
    proof {
        assert(pairs.skip(pairs.len() as int) =~= Seq::<(Seq<char>, Seq<char>)>::empty());
    }
    None
}

/// The repository URL among the project URLs, by descending preference.
fn lookup_repository(urls: &Option<Vec<(String, String)>>) -> (r: Option<String>)
    ensures
        (match (r, repository_spec(
            match urls {
                Option::Some(v) => Option::Some(
                    v@.map_values(|p: (String, String)| (p.0@, p.1@)),
                ),
                Option::None => Option::None,
            },
        )) {
            (Option::Some(a), Option::Some(b)) => a@ == b,
            (Option::None, Option::None) => true,
            _ => false,
        }),
{
    match urls {
        Option::Some(v) => {
            let source = lookup_label(v, "Source");
            match source {
                Option::Some(u) => Some(u),
                Option::None => {
                    let repo = lookup_label(v, "Repository");
                    match repo {
                        Option::Some(u) => Some(u),
                        Option::None => lookup_label(v, "GitHub"),
                    }
                },
            }
        },
        Option::None => None,
    }
}

/// The documentation URL among the project URLs.
fn lookup_documentation(urls: &Option<Vec<(String, String)>>) -> (r: Option<String>)
    ensures
        (match (r, documentation_spec(
            match urls {
                Option::Some(v) => Option::Some(
                    v@.map_values(|p: (String, String)| (p.0@, p.1@)),
                ),
                Option::None => Option::None,
            },
        )) {
            (Option::Some(a), Option::Some(b)) => a@ == b,
            (Option::None, Option::None) => true,
            _ => false,
        }),
{
    match urls {
        Option::Some(v) => lookup_label(v, "Documentation"),
        Option::None => None,
    }
}

/// Split a comma-separated keyword string, trimming each piece and dropping
/// empties.
fn split_keywords(k: &str) -> (r: Vec<String>)
    ensures
        r.deep_view() == keywords_spec(Option::Some(k@)),
{
    let pieces = crate::textscan::split_char(k, ',');
    let ghost raw = split_on(k@, char_eq_pred(','));
    let ghost mapped = raw.map_values(|piece: Seq<char>| trim_spec(piece));
    let mut out: Vec<String> = Vec::new();
    let mut i: usize = 0;
    proof {
        reveal(Seq::filter);
        assert(mapped.take(0) =~= Seq::<Seq<char>>::empty());
        assert(out.deep_view() =~= mapped.take(0).filter(nonempty_pred()));
        vstd::std_specs::vec::axiom_spec_len(&pieces);
    }
    while i < pieces.len()
        invariant
            i <= pieces.len(),
            pieces.deep_view() == raw,
            raw.len() <= usize::MAX as int,
            mapped == raw.map_values(|piece: Seq<char>| trim_spec(piece)),
            out.deep_view() == mapped.take(i as int).filter(nonempty_pred()),
        decreases pieces.len() - i,
    {
        proof {
            crate::strutil::lemma_filter_take_one_more(mapped, i as int, nonempty_pred());
            assert(mapped.take(i as int + 1) =~= mapped.take(i as int).push(mapped[i as int]));
            assert(raw[i as int] == pieces.deep_view()[i as int]);
            assert(pieces.deep_view()[i as int] == pieces@[i as int]@);
        }
        let t = trim(pieces[i].as_str());
        if t.unicode_len() > 0 {
            crate::textscan::push_string(&mut out, String::from_str(t));
            proof {
                assert(out.deep_view() =~= mapped.take(i as int + 1).filter(nonempty_pred()));
            }
        } else {
            proof {
                assert(out.deep_view() =~= mapped.take(i as int + 1).filter(nonempty_pred()));
            }
        }
        i = i + 1;
    }
    proof {
        assert(mapped.take(mapped.len() as int) =~= mapped);
    }
    out
}

/// The leading name of each requirement string, empties dropped.
fn dependency_names(deps: &Vec<String>) -> (r: Vec<String>)
    ensures
        r.deep_view() == dependency_names_spec(Option::Some(deps.deep_view())),
{
    let ghost raw = deps.deep_view();
    let ghost mapped = raw.map_values(
        |d: Seq<char>| d.take(crate::textscan::find_first(d, |c: char| !(name_char_pred()(c)))),
    );
    let mut out: Vec<String> = Vec::new();
    let mut i: usize = 0;
    proof {
        reveal(Seq::filter);
        assert(mapped.take(0) =~= Seq::<Seq<char>>::empty());
        assert(out.deep_view() =~= mapped.take(0).filter(nonempty_pred()));
        vstd::std_specs::vec::axiom_spec_len(deps);
    }
    while i < deps.len()
        invariant
            i <= deps.len(),
            raw == deps.deep_view(),
            raw.len() <= usize::MAX as int,
            mapped == raw.map_values(
                |d: Seq<char>| d.take(
                    crate::textscan::find_first(d, |c: char| !(name_char_pred()(c))),
                ),
            ),
            out.deep_view() == mapped.take(i as int).filter(nonempty_pred()),
        decreases deps.len() - i,
    {
        proof {
            crate::strutil::lemma_filter_take_one_more(mapped, i as int, nonempty_pred());
            assert(mapped.take(i as int + 1) =~= mapped.take(i as int).push(mapped[i as int]));
            assert(raw[i as int] == deps.deep_view()[i as int]);
            assert(deps.deep_view()[i as int] == deps@[i as int]@);
        }
        let d = deps[i].as_str();
        let dlen: usize = d.unicode_len();
        let mut k: usize = 0;
        while k < dlen && (d.get_char(k).is_alphanumeric() || d.get_char(k) == '-' || d.get_char(
            k,
        ) == '_')
            invariant
                k <= dlen,
                dlen == d@.len(),
                forall|t: int| 0 <= t < k ==> name_char_pred()(#[trigger] d@[t]),
            decreases dlen - k,
        {
            k = k + 1;
        }
        proof {
            let notname = |c: char| !(name_char_pred()(c));
            assert forall|t: int| 0 <= t < k implies !notname(#[trigger] d@[t]) by {}
            if (k as int) < d@.len() {
                assert(notname(d@[k as int]));
            }
            crate::textscan::lemma_find_first_is(d@, notname, k as int);
        }
        if k > 0 {
            let name = d.substring_char(0, k);
            proof {
                assert(name@ =~= mapped[i as int]);
            }
            crate::textscan::push_string(&mut out, String::from_str(name));
            proof {
                assert(out.deep_view() =~= mapped.take(i as int + 1).filter(nonempty_pred()));
            }
        } else {
            proof {
                assert(mapped[i as int].len() == 0);
                assert(out.deep_view() =~= mapped.take(i as int + 1).filter(nonempty_pred()));
            }
        }
        i = i + 1;
    }
    proof {
        assert(mapped.take(mapped.len() as int) =~= mapped);
    }
    out
}

/// Validate a package name for an index lookup: trimmed, it must be nonempty
/// and carry only alphanumerics, dashes, underscores, and dots. The trimmed
/// name is returned for the request.
pub fn validate_lookup_name(package_name: &str) -> (r: Result<String, PyPiSearchError>)
    ensures
        r matches Ok(n) ==> {
            &&& n@ == trim_spec(package_name@)
            &&& n@.len() > 0
            &&& forall|i: int|
                0 <= i < n@.len() ==> is_alphanumeric_char(#[trigger] n@[i]) || n@[i] == '-'
                    || n@[i] == '_' || n@[i] == '.'
        },
        r is Err <==> trim_spec(package_name@).len() == 0 || exists|i: int|
            0 <= i < trim_spec(package_name@).len() && !(is_alphanumeric_char(
                #[trigger] trim_spec(package_name@)[i],
            ) || trim_spec(package_name@)[i] == '-' || trim_spec(package_name@)[i] == '_'
                || trim_spec(package_name@)[i] == '.'),
        r matches Err(PyPiSearchError::InvalidName(n)) ==> n@ == trim_spec(package_name@),
        r matches Err(e) ==> e is InvalidName,
{
    let name = trim(package_name);
    let len: usize = name.unicode_len();
    if len == 0 {
        return Err(PyPiSearchError::InvalidName(String::from_str(name)));
    }
    let mut i: usize = 0;
    while i < len
        invariant
            i <= len,
            len == name@.len(),
            name@ == trim_spec(package_name@),
            forall|t: int|
                0 <= t < i ==> is_alphanumeric_char(#[trigger] name@[t]) || name@[t] == '-'
                    || name@[t] == '_' || name@[t] == '.',
        decreases len - i,
    {
        let c = name.get_char(i);
        if !(c.is_alphanumeric() || c == '-' || c == '_' || c == '.') {
            return Err(PyPiSearchError::InvalidName(String::from_str(name)));
        }
        i = i + 1;
    }
    Ok(String::from_str(name))
}

/// The JSON API request URL for a validated package name.
pub fn pypi_request_url(name: &str) -> (r: String)
    ensures
        r@ == "https://pypi.org/pypi/"@ + name@ + "/json"@,
{
    let mut s = String::from_str("https://pypi.org/pypi/");
    s.append(name);
    s.append("/json");
    proof {
        assert(s@ =~= "https://pypi.org/pypi/"@ + name@ + "/json"@);
    }
    s
}

} // verus!
