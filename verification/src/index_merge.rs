//! Merging of package-index locations: configured indexes, per-run extra
//! indexes, an optional override default index, and find-links locations are
//! combined into one ordered, de-duplicated index set.
//!
//! Duplicates are compared by normalized URL (trailing slashes ignored); the
//! first occurrence wins and keeps its origin tag. Entries from
//! higher-precedence origins sort before lower-precedence ones. When the
//! no-index flag is set the registry portion is dropped entirely, while
//! find-links entries are still honored.

use vstd::prelude::*;
use vstd::string::StrSliceExecFns;

verus! {

broadcast use {vstd::seq::Seq::filter_distributes_over_add, vstd::seq_lib::group_filter_ensures};

/// What kind of index an entry points at.
#[derive(Clone, Copy, Debug, PartialEq, Eq, Structural)]
pub enum IndexKind {
    /// A simple-API registry index.
    Registry,
    /// A flat find-links location.
    FindLinks,
}

/// Where an index entry was configured.
#[derive(Clone, Copy, Debug, PartialEq, Eq, Structural)]
pub enum IndexOrigin {
    /// Given on the command line.
    Cli,
    /// Read from a parsed requirements file.
    RequirementsFile,
    /// Taken from persistent configuration.
    Config,
}

/// One index location: a URL, its kind, and the origin that supplied it.
pub struct IndexLocation {
    /// The index URL as configured.
    pub url: String,
    /// Registry or find-links.
    pub kind: IndexKind,
    /// The origin that supplied the entry.
    pub origin: IndexOrigin,
}

/// The mathematical content of an [`IndexLocation`].
pub ghost struct IndexLocationView {
    pub url: Seq<char>,
    pub kind: IndexKind,
    pub origin: IndexOrigin,
}

impl View for IndexLocation {
    type V = IndexLocationView;

    open spec fn view(&self) -> IndexLocationView {
        IndexLocationView { url: self.url@, kind: self.kind, origin: self.origin }
    }
}

impl DeepView for IndexLocation {
    type V = IndexLocationView;

    open spec fn deep_view(&self) -> IndexLocationView {
        self.view()
    }
}

impl IndexLocation {
    /// An extra registry index read from a requirements file.
    pub fn from_extra_index_url(url: String) -> (r: IndexLocation)
        ensures
            r@ == (IndexLocationView {
                url: url@,
                kind: IndexKind::Registry,
                origin: IndexOrigin::RequirementsFile,
            }),
    {
        IndexLocation { url, kind: IndexKind::Registry, origin: IndexOrigin::RequirementsFile }
    }

    /// The override default registry index read from a requirements file.
    pub fn from_index_url(url: String) -> (r: IndexLocation)
        ensures
            r@ == (IndexLocationView {
                url: url@,
                kind: IndexKind::Registry,
                origin: IndexOrigin::RequirementsFile,
            }),
    {
        IndexLocation { url, kind: IndexKind::Registry, origin: IndexOrigin::RequirementsFile }
    }

    /// A find-links location read from a requirements file.
    pub fn from_find_links(url: String) -> (r: IndexLocation)
        ensures
            r@ == (IndexLocationView {
                url: url@,
                kind: IndexKind::FindLinks,
                origin: IndexOrigin::RequirementsFile,
            }),
    {
        IndexLocation { url, kind: IndexKind::FindLinks, origin: IndexOrigin::RequirementsFile }
    }
}

/// A URL with trailing slashes removed; the form compared for duplicates.
pub open spec fn normalized_url(u: Seq<char>) -> Seq<char>
    decreases u.len(),
{
    if u.len() > 0 && u.last() == '/' {
        normalized_url(u.drop_last())
    } else {
        u
    }
}

/// Precedence rank of an origin; smaller sorts first.
pub open spec fn origin_rank(o: IndexOrigin) -> int {
    match o {
        IndexOrigin::Cli => 0,
        IndexOrigin::RequirementsFile => 1,
        IndexOrigin::Config => 2,
    }
}

/// De-duplication by normalized URL, first occurrence winning, given the set
/// of normalized URLs already taken.
pub open spec fn dedup_from(
    s: Seq<IndexLocationView>,
    seen: Set<Seq<char>>,
) -> Seq<IndexLocationView>
    decreases s.len(),
{
    if s.len() == 0 {
        s
    } else if seen.contains(normalized_url(s[0].url)) {
        dedup_from(s.drop_first(), seen)
    } else {
        seq![s[0]] + dedup_from(s.drop_first(), seen.insert(normalized_url(s[0].url)))
    }
}

/// De-duplication by normalized URL over a whole candidate list.
pub open spec fn dedup_urls(s: Seq<IndexLocationView>) -> Seq<IndexLocationView> {
    dedup_from(s, Set::empty())
}

/// Whether an entry is a find-links entry.
pub open spec fn find_links_pred() -> spec_fn(IndexLocationView) -> bool {
    |e: IndexLocationView| e.kind == IndexKind::FindLinks
}

/// Whether an entry's origin has the given rank.
pub open spec fn rank_pred(rank: int) -> spec_fn(IndexLocationView) -> bool {
    |e: IndexLocationView| origin_rank(e.origin) == rank
}

/// Stable arrangement by origin precedence: all rank-0 entries first, then
/// rank 1, then rank 2, each group in its incoming order.
pub open spec fn by_precedence(s: Seq<IndexLocationView>) -> Seq<IndexLocationView> {
    s.filter(rank_pred(0)) + s.filter(rank_pred(1)) + s.filter(rank_pred(2))
}

/// The candidate list before de-duplication: configured entries, then the
/// override default index, then the extra indexes, then find-links.
pub open spec fn candidate_seq(
    base: Seq<IndexLocationView>,
    default_index: Option<IndexLocationView>,
    extra_indexes: Seq<IndexLocationView>,
    find_links: Seq<IndexLocationView>,
) -> Seq<IndexLocationView> {
    base + (match default_index {
        Option::Some(d) => seq![d],
        Option::None => Seq::<IndexLocationView>::empty(),
    }) + extra_indexes + find_links
}

/// The merged index set: candidates, the registry portion dropped under the
/// no-index flag, de-duplicated by normalized URL, arranged by precedence.
pub open spec fn merged_spec(
    base: Seq<IndexLocationView>,
    default_index: Option<IndexLocationView>,
    extra_indexes: Seq<IndexLocationView>,
    find_links: Seq<IndexLocationView>,
    no_index: bool,
) -> Seq<IndexLocationView> {
    let candidates = candidate_seq(base, default_index, extra_indexes, find_links);
    let kept = if no_index {
        candidates.filter(find_links_pred())
    } else {
        candidates
    };
    by_precedence(dedup_urls(kept))
}

/// Decide whether two URLs are equal once normalized.
pub fn url_norm_eq(a: &str, b: &str) -> (r: bool)
    ensures
        r == (normalized_url(a@) == normalized_url(b@)),
{
    let ta = trim_trailing_slashes(a);
    let tb = trim_trailing_slashes(b);
    crate::strutil::str_eq(ta, tb)
}

/// Remove the trailing slashes of a URL.
fn trim_trailing_slashes(s: &str) -> (r: &str)
    ensures
        r@ == normalized_url(s@),
{
    let len: usize = s.unicode_len();
    let mut end: usize = len;
    proof {
        assert(s@.take(len as int) =~= s@);
    }
    while end > 0 && s.get_char(end - 1) == '/'
        invariant
            end <= len,
            len == s@.len(),
            normalized_url(s@) == normalized_url(s@.take(end as int)),
        decreases end,
    {
        proof {
            let t = s@.take(end as int);
            assert(t.last() == s@[end - 1]);
            assert(t.drop_last() =~= s@.take(end as int - 1));
        }
        end = end - 1;
    }
    proof {
        let t = s@.take(end as int);
        if end > 0 {
            assert(t.last() == s@[end - 1]);
            assert(normalized_url(t) == t);
        } else {
            assert(t =~= Seq::<char>::empty());
        }
    }
    s.substring_char(0, end)
}

/// Clone one index location, keeping its mathematical content.
fn clone_location(e: &IndexLocation) -> (r: IndexLocation)
    ensures
        r@ == e@,
{
    IndexLocation { url: e.url.clone(), kind: e.kind, origin: e.origin }
}


/// Push one entry, tracking the deep view.
fn push_loc(v: &mut Vec<IndexLocation>, e: IndexLocation)
    ensures
        final(v).deep_view() == old(v).deep_view() + seq![e@],
{
    let ghost before = v.deep_view();
    let ghost ev = e@;
    v.push(e);
    proof {
        let dv = v.deep_view();
        assert forall|j: int| 0 <= j < dv.len() implies dv[j] == (before + seq![ev])[j] by {
            assert(dv[j] == v@[j]@);
            if j < before.len() {
                assert(before[j] == old(v)@[j]@);
            }
        }
        assert(dv =~= before + seq![ev]);
    }
}

/// Append clones of the entries of `src` whose origin has the given rank.
fn push_rank(acc: &mut Vec<IndexLocation>, src: &Vec<IndexLocation>, rank: usize)
    requires
        rank <= 2,
    ensures
        final(acc).deep_view() == old(acc).deep_view() + src.deep_view().filter(
            rank_pred(rank as int),
        ),
{
    let ghost start = acc.deep_view();
    let ghost views = src.deep_view();
    let mut i: usize = 0;
    proof {
        assert(views.take(0).filter(rank_pred(rank as int)) =~= Seq::<
            IndexLocationView,
        >::empty()) by {
            reveal(Seq::filter);
            assert(views.take(0) =~= Seq::<IndexLocationView>::empty());
        }
        assert(start + views.take(0).filter(rank_pred(rank as int)) =~= start);
    }
    while i < src.len()
        invariant
            i <= src.len(),
            views == src.deep_view(),
            acc.deep_view() == start + views.take(i as int).filter(rank_pred(rank as int)),
            rank <= 2,
        decreases src.len() - i,
    {
        proof {
            crate::strutil::lemma_filter_take_one_more(views, i as int, rank_pred(rank as int));
        }
        let e = &src[i];
        let matches_rank: bool = match e.origin {
            IndexOrigin::Cli => rank == 0,
            IndexOrigin::RequirementsFile => rank == 1,
            IndexOrigin::Config => rank == 2,
        };
        if matches_rank {
            let c = clone_location(e);
            push_loc(acc, c);
            proof {
                assert(acc.deep_view() =~= start + views.take(i as int + 1).filter(
                    rank_pred(rank as int),
                ));
            }
        } else {
            proof {
                assert(acc.deep_view() =~= start + views.take(i as int + 1).filter(
                    rank_pred(rank as int),
                ));
            }
        }
        i = i + 1;
    }
    proof {
        assert(views.take(views.len() as int) =~= views);
    }
}

/// Combine configured index locations with the run's additions into one
/// ordered, de-duplicated index set.
///
/// The override default index comes right after the configured entries, then
/// the extra indexes, then find-links. Under the no-index flag only
/// find-links entries survive. Duplicates by normalized URL collapse to the
/// first occurrence, which keeps its origin; the result is arranged by origin
/// precedence (command line before requirements files before configuration).
pub fn combine_index_locations(
    base: &Vec<IndexLocation>,
    default_index: Option<IndexLocation>,
    extra_indexes: &Vec<IndexLocation>,
    find_links: &Vec<IndexLocation>,
    no_index: bool,
) -> (r: Vec<IndexLocation>)
    ensures
        r.deep_view() == merged_spec(
            base.deep_view(),
            match default_index {
                Option::Some(d) => Option::Some(d@),
                Option::None => Option::<IndexLocationView>::None,
            },
            extra_indexes.deep_view(),
            find_links.deep_view(),
            no_index,
        ),
{
    let ghost default_view = match &default_index {
        Option::Some(d) => Option::Some(d@),
        Option::None => Option::<IndexLocationView>::None,
    };
    // Gather the candidates in merge order.
    let mut candidates: Vec<IndexLocation> = Vec::new();
    append_clones(&mut candidates, base);
    let ghost after_base = candidates.deep_view();
    match default_index {
        Option::Some(d) => {
            push_loc(&mut candidates, d);
        },
        Option::None => {},
    }
    append_clones(&mut candidates, extra_indexes);
    append_clones(&mut candidates, find_links);
    let ghost cand_views = candidate_seq(
        base.deep_view(),
        default_view,
        extra_indexes.deep_view(),
        find_links.deep_view(),
    );
    proof {
        assert(candidates.deep_view() =~= cand_views);
    }
    // Drop the registry portion under the no-index flag.
    let kept: Vec<IndexLocation> = if no_index {
        filter_find_links(&candidates)
    } else {
        candidates
    };
    let ghost kept_views = if no_index {
        cand_views.filter(find_links_pred())
    } else {
        cand_views
    };
    proof {
        assert(kept.deep_view() == kept_views);
    }
    // De-duplicate by normalized URL, first occurrence winning.
    let deduped = dedup_by_url(&kept);
    // Arrange by origin precedence.
    let mut r: Vec<IndexLocation> = Vec::new();
    push_rank(&mut r, &deduped, 0);
    push_rank(&mut r, &deduped, 1);
    push_rank(&mut r, &deduped, 2);
    proof {
        assert(r.deep_view() =~= by_precedence(dedup_urls(kept_views)));
    }
    r
}

/// Append clones of all entries.
fn append_clones(acc: &mut Vec<IndexLocation>, src: &Vec<IndexLocation>)
    ensures
        final(acc).deep_view() == old(acc).deep_view() + src.deep_view(),
{
    let ghost start = acc.deep_view();
    let ghost views = src.deep_view();
    let mut i: usize = 0;
    while i < src.len()
        invariant
            i <= src.len(),
            views == src.deep_view(),
            acc.deep_view() == start + views.take(i as int),
        decreases src.len() - i,
    {
        let c = clone_location(&src[i]);
        push_loc(acc, c);
        proof {
            assert(views.take(i as int + 1) =~= views.take(i as int) + seq![views[i as int]]);
            assert(acc.deep_view() =~= start + views.take(i as int + 1));
        }
        i = i + 1;
    }
    proof {
        assert(views.take(views.len() as int) =~= views);
        assert(acc.deep_view() =~= start + views);
    }
}

/// Keep only the find-links entries.
fn filter_find_links(src: &Vec<IndexLocation>) -> (r: Vec<IndexLocation>)
    ensures
        r.deep_view() == src.deep_view().filter(find_links_pred()),
{
    let ghost views = src.deep_view();
    let mut r: Vec<IndexLocation> = Vec::new();
    proof {
        reveal(Seq::filter);
        assert(views.take(0) =~= Seq::<IndexLocationView>::empty());
        assert(r.deep_view() =~= views.take(0).filter(find_links_pred()));
    }
    let mut i: usize = 0;
    while i < src.len()
        invariant
            i <= src.len(),
            views == src.deep_view(),
            r.deep_view() == views.take(i as int).filter(find_links_pred()),
        decreases src.len() - i,
    {
        proof {
            crate::strutil::lemma_filter_take_one_more(views, i as int, find_links_pred());
        }
        let e = &src[i];
        if matches!(e.kind, IndexKind::FindLinks) {
            let c = clone_location(e);
            push_loc(&mut r, c);
            proof {
                assert(r.deep_view() =~= views.take(i as int + 1).filter(find_links_pred()));
            }
        } else {
            proof {
                assert(r.deep_view() =~= views.take(i as int + 1).filter(find_links_pred()));
            }
        }
        i = i + 1;
    }
    proof {
        assert(views.take(views.len() as int) =~= views);
    }
    r
}

/// De-duplicate by normalized URL, first occurrence winning.
fn dedup_by_url(src: &Vec<IndexLocation>) -> (r: Vec<IndexLocation>)
    ensures
        r.deep_view() == dedup_urls(src.deep_view()),
{
    let ghost views = src.deep_view();
    let mut r: Vec<IndexLocation> = Vec::new();
    let ghost seen: Set<Seq<char>> = Set::empty();
    let mut i: usize = 0;
    proof {
        assert(views.skip(0) =~= views);
    }
    while i < src.len()
        invariant
            i <= src.len(),
            views == src.deep_view(),
            dedup_urls(views) == r.deep_view() + dedup_from(views.skip(i as int), seen),
            seen =~= Set::new(
                |u: Seq<char>|
                    exists|j: int|
                        0 <= j < r.deep_view().len() && normalized_url(
                            #[trigger] r.deep_view()[j].url,
                        ) == u,
            ),
        decreases src.len() - i,
    {
        proof {
            assert(views.skip(i as int)[0] == views[i as int]);
            assert(views.skip(i as int).drop_first() =~= views.skip(i as int + 1));
        }
        let e = &src[i];
        let dup = contains_url(&r, e.url.as_str());
        proof {
            assert(dup == seen.contains(normalized_url(views[i as int].url)));
        }
        if !dup {
            let ghost before = r.deep_view();
            let c = clone_location(e);
            push_loc(&mut r, c);
            proof {
                seen = seen.insert(normalized_url(views[i as int].url));
                assert(seen =~= Set::new(
                    |u: Seq<char>|
                        exists|j: int|
                            0 <= j < r.deep_view().len() && normalized_url(
                                #[trigger] r.deep_view()[j].url,
                            ) == u,
                )) by {
                    let dv = r.deep_view();
                    assert forall|u: Seq<char>| seen.contains(u) implies exists|j: int|
                        0 <= j < dv.len() && normalized_url(#[trigger] dv[j].url) == u by {
                        if u == normalized_url(views[i as int].url) {
                            assert(normalized_url(dv[dv.len() - 1].url) == u);
                        } else {
                            let j = choose|j: int|
                                0 <= j < before.len() && normalized_url(#[trigger] before[j].url)
                                    == u;
                            assert(normalized_url(dv[j].url) == u);
                        }
                    }
                }
            }
        }
        i = i + 1;
    }
    proof {
        assert(views.skip(views.len() as int) =~= Seq::<IndexLocationView>::empty());
        assert(dedup_from(Seq::<IndexLocationView>::empty(), seen) =~= Seq::<
            IndexLocationView,
        >::empty());
        assert(r.deep_view() =~= dedup_urls(views));
    }
    r
}

/// Whether the gathered list already holds an entry with this normalized URL.
fn contains_url(r: &Vec<IndexLocation>, url: &str) -> (dup: bool)
    ensures
        dup == exists|j: int|
            0 <= j < r.deep_view().len() && normalized_url(#[trigger] r.deep_view()[j].url)
                == normalized_url(url@),
{
    let mut k: usize = 0;
    while k < r.len()
        invariant
            k <= r.len(),
            forall|j: int|
                0 <= j < k ==> normalized_url(#[trigger] r.deep_view()[j].url) != normalized_url(
                    url@,
                ),
        decreases r.len() - k,
    {
        if url_norm_eq(r[k].url.as_str(), url) {
            proof {
                assert(normalized_url(r.deep_view()[k as int].url) == normalized_url(url@));
            }
            return true;
        }
        k = k + 1;
    }
    false
}

/// De-duplication keeps only entries of the input, none of them already
/// seen, and no two of them sharing a normalized URL.
pub proof fn lemma_dedup_from_properties(s: Seq<IndexLocationView>, seen: Set<Seq<char>>)
    ensures
        forall|i: int|
            0 <= i < dedup_from(s, seen).len() ==> s.contains(#[trigger] dedup_from(s, seen)[i]),
        forall|i: int|
            0 <= i < dedup_from(s, seen).len() ==> !seen.contains(
                normalized_url(#[trigger] dedup_from(s, seen)[i].url),
            ),
        forall|i: int, j: int|
            0 <= i < j < dedup_from(s, seen).len() ==> normalized_url(
                #[trigger] dedup_from(s, seen)[i].url,
            ) != normalized_url(#[trigger] dedup_from(s, seen)[j].url),
    decreases s.len(),
{
    if s.len() == 0 {
    } else {
        let d = dedup_from(s, seen);
        let h = s[0];
        let hurl = normalized_url(h.url);
        let tail = s.drop_first();
        if seen.contains(hurl) {
            lemma_dedup_from_properties(tail, seen);
            assert forall|i: int| 0 <= i < d.len() implies s.contains(#[trigger] d[i]) by {
                assert(tail.contains(d[i]));
                let k = choose|k: int| 0 <= k < tail.len() && tail[k] == d[i];
                assert(s[k + 1] == d[i]);
            }
        } else {
            let rest = dedup_from(tail, seen.insert(hurl));
            lemma_dedup_from_properties(tail, seen.insert(hurl));
            assert(d == seq![h] + rest);
            assert forall|i: int| 0 <= i < d.len() implies s.contains(#[trigger] d[i]) by {
                if i == 0 {
                    assert(s[0] == d[0]);
                } else {
                    assert(d[i] == rest[i - 1]);
                    assert(tail.contains(rest[i - 1]));
                    let k = choose|k: int| 0 <= k < tail.len() && tail[k] == rest[i - 1];
                    assert(s[k + 1] == d[i]);
                }
            }
            assert forall|i: int| 0 <= i < d.len() implies !seen.contains(
                normalized_url(#[trigger] d[i].url),
            ) by {
                if i > 0 {
                    assert(d[i] == rest[i - 1]);
                    assert(!seen.insert(hurl).contains(normalized_url(rest[i - 1].url)));
                }
            }
            assert forall|i: int, j: int| 0 <= i < j < d.len() implies normalized_url(
                #[trigger] d[i].url,
            ) != normalized_url(#[trigger] d[j].url) by {
                if i == 0 {
                    assert(d[j] == rest[j - 1]);
                    assert(!seen.insert(hurl).contains(normalized_url(rest[j - 1].url)));
                } else {
                    assert(d[i] == rest[i - 1] && d[j] == rest[j - 1]);
                }
            }
        }
    }
}

/// The merged index set is ordered by origin precedence.
pub proof fn lemma_merged_ordered(
    base: Seq<IndexLocationView>,
    default_index: Option<IndexLocationView>,
    extra_indexes: Seq<IndexLocationView>,
    find_links: Seq<IndexLocationView>,
    no_index: bool,
)
    ensures
        forall|i: int, j: int|
            0 <= i < j < merged_spec(base, default_index, extra_indexes, find_links,
            no_index).len() ==> origin_rank(
                #[trigger] merged_spec(base, default_index, extra_indexes, find_links, no_index)[i].origin,
            ) <= origin_rank(
                #[trigger] merged_spec(base, default_index, extra_indexes, find_links, no_index)[j].origin,
            ),
{
    let m = merged_spec(base, default_index, extra_indexes, find_links, no_index);
    let candidates = candidate_seq(base, default_index, extra_indexes, find_links);
    let kept = if no_index {
        candidates.filter(find_links_pred())
    } else {
        candidates
    };
    let d = dedup_urls(kept);
    let f0 = d.filter(rank_pred(0));
    let f1 = d.filter(rank_pred(1));
    let f2 = d.filter(rank_pred(2));
    assert forall|i: int| 0 <= i < m.len() implies origin_rank(#[trigger] m[i].origin) == (
    if i < f0.len() {
        0int
    } else if i < f0.len() + f1.len() {
        1int
    } else {
        2int
    }) by {
        if i < f0.len() {
            assert(m[i] == f0[i]);
            assert(rank_pred(0)(f0[i]));
        } else if i < f0.len() + f1.len() {
            assert(m[i] == f1[i - f0.len()]);
            assert(rank_pred(1)(f1[i - f0.len()]));
        } else {
            assert(m[i] == f2[i - f0.len() - f1.len()]);
            assert(rank_pred(2)(f2[i - f0.len() - f1.len()]));
        }
    }
}

/// Under the no-index flag the merged set holds find-links entries only; the
/// registry portion is empty whatever the other inputs held.
pub proof fn lemma_merged_no_index(
    base: Seq<IndexLocationView>,
    default_index: Option<IndexLocationView>,
    extra_indexes: Seq<IndexLocationView>,
    find_links: Seq<IndexLocationView>,
)
    ensures
        forall|i: int|
            0 <= i < merged_spec(base, default_index, extra_indexes, find_links, true).len()
                ==> (#[trigger] merged_spec(base, default_index, extra_indexes, find_links,
            true)[i]).kind == IndexKind::FindLinks,
{
    let candidates = candidate_seq(base, default_index, extra_indexes, find_links);
    let kept = candidates.filter(find_links_pred());
    let d = dedup_urls(kept);
    let m = merged_spec(base, default_index, extra_indexes, find_links, true);
    lemma_dedup_from_properties(kept, Set::empty());
    let f0 = d.filter(rank_pred(0));
    let f1 = d.filter(rank_pred(1));
    assert forall|i: int| 0 <= i < m.len() implies (#[trigger] m[i]).kind
        == IndexKind::FindLinks by {
        let e = if i < f0.len() {
            f0[i]
        } else if i < f0.len() + f1.len() {
            f1[i - f0.len()]
        } else {
            d.filter(rank_pred(2))[i - f0.len() - f1.len()]
        };
        assert(m[i] == e);
        if i < f0.len() {
            crate::strutil::lemma_filter_element_of(d, rank_pred(0));
        } else if i < f0.len() + f1.len() {
            crate::strutil::lemma_filter_element_of(d, rank_pred(1));
        } else {
            crate::strutil::lemma_filter_element_of(d, rank_pred(2));
        }
        assert(d.contains(e));
        let k = choose|k: int| 0 <= k < d.len() && d[k] == e;
        assert(kept.contains(d[k]));
        let k2 = choose|k2: int| 0 <= k2 < kept.len() && kept[k2] == e;
        assert(find_links_pred()(kept[k2]));
    }
}

/// The position of the first entry carrying the given normalized URL, or
/// the length where none does.
pub open spec fn first_index_with_url(s: Seq<IndexLocationView>, u: Seq<char>) -> int
    decreases s.len(),
{
    if s.len() == 0 {
        0
    } else if normalized_url(s[0].url) == u {
        0
    } else {
        1 + first_index_with_url(s.drop_first(), u)
    }
}

/// Every de-duplicated entry is the first occurrence of its normalized URL
/// in the input, so it keeps the origin tag of that first occurrence.
pub proof fn lemma_dedup_first_occurrence(s: Seq<IndexLocationView>, seen: Set<Seq<char>>)
    ensures
        forall|i: int|
            #![trigger dedup_from(s, seen)[i]]
            0 <= i < dedup_from(s, seen).len() ==> {
                let e = dedup_from(s, seen)[i];
                let k = first_index_with_url(s, normalized_url(e.url));
                0 <= k < s.len() && s[k] == e
            },
    decreases s.len(),
{
    lemma_dedup_from_properties(s, seen);
    if s.len() == 0 {
        assert(dedup_from(s, seen).len() == 0);
    } else {
        let d = dedup_from(s, seen);
        let h = s[0];
        let hurl = normalized_url(h.url);
        let tail = s.drop_first();
        if seen.contains(hurl) {
            lemma_dedup_first_occurrence(tail, seen);
            lemma_dedup_from_properties(tail, seen);
            assert(d == dedup_from(tail, seen));
            assert forall|i: int|
                #![trigger dedup_from(s, seen)[i]]
                0 <= i < dedup_from(s, seen).len() implies {
                let e = dedup_from(s, seen)[i];
                let k = first_index_with_url(s, normalized_url(e.url));
                0 <= k < s.len() && s[k] == e
            } by {
                let e = d[i];
                assert(dedup_from(tail, seen)[i] == e);
                assert(!seen.contains(normalized_url(e.url)));
                assert(normalized_url(h.url) != normalized_url(e.url));
                assert(first_index_with_url(s, normalized_url(e.url)) == 1
                    + first_index_with_url(tail, normalized_url(e.url)));
                assert(s[1 + first_index_with_url(tail, normalized_url(e.url))] == tail[
                    first_index_with_url(tail, normalized_url(e.url))
                ]);
            }
        } else {
            let rest = dedup_from(tail, seen.insert(hurl));
            lemma_dedup_first_occurrence(tail, seen.insert(hurl));
            lemma_dedup_from_properties(tail, seen.insert(hurl));
            assert(d == seq![h] + rest);
            assert forall|i: int|
                #![trigger dedup_from(s, seen)[i]]
                0 <= i < dedup_from(s, seen).len() implies {
                let e = dedup_from(s, seen)[i];
                let k = first_index_with_url(s, normalized_url(e.url));
                0 <= k < s.len() && s[k] == e
            } by {
                let e = d[i];
                if i == 0 {
                    assert(e == h);
                    assert(first_index_with_url(s, normalized_url(e.url)) == 0);
                } else {
                    assert(e == rest[i - 1]);
                    assert(dedup_from(tail, seen.insert(hurl))[i - 1] == e);
                    assert(!seen.insert(hurl).contains(normalized_url(e.url)));
                    assert(normalized_url(h.url) != normalized_url(e.url));
                    assert(first_index_with_url(s, normalized_url(e.url)) == 1
                        + first_index_with_url(tail, normalized_url(e.url)));
                    assert(s[1 + first_index_with_url(tail, normalized_url(e.url))] == tail[
                        first_index_with_url(tail, normalized_url(e.url))
                    ]);
                }
            }
        }
    }
}

} // verus!
