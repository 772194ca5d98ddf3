//! Deterministic archive packing: the rule that turns an unpacked wheel
//! directory into the entries of a ZIP container, and the trusted layer
//! around the `zip` crate that writes those entries as bytes.
//!
//! The rule: the root directory itself is omitted; a directory becomes an
//! entry whose name carries a trailing separator, so empty directories are
//! preserved; a file becomes an entry of its relative path with its bytes.
//! Entries are compressed with DEFLATE and written with a fixed timestamp,
//! so the same entries give the same archive bytes.

use vstd::prelude::*;
use vstd::string::StrSliceExecFns;
use vstd::string::StringExecFns;

use std::io::Cursor;
use std::io::Write;

verus! {

/// One entry of an unpacked artifact directory, by its path relative to the
/// directory root (no trailing separator).
pub struct DirEntry {
    /// The relative path; the root itself has the empty path.
    pub path: String,
    /// Whether this is a directory.
    pub is_dir: bool,
    /// The file's bytes; empty for a directory.
    pub data: Vec<u8>,
}

/// The mathematical content of a [`DirEntry`].
pub ghost struct DirEntryView {
    pub path: Seq<char>,
    pub is_dir: bool,
    pub data: Seq<u8>,
}

impl View for DirEntry {
    type V = DirEntryView;

    open spec fn view(&self) -> DirEntryView {
        DirEntryView { path: self.path@, is_dir: self.is_dir, data: self.data@ }
    }
}

impl DeepView for DirEntry {
    type V = DirEntryView;

    open spec fn deep_view(&self) -> DirEntryView {
        self.view()
    }
}

/// One planned archive entry: the stored name (directories carry a trailing
/// separator), and the stored bytes.
pub struct ArchiveEntry {
    /// The stored entry name.
    pub name: String,
    /// Whether the entry is a directory entry.
    pub is_dir: bool,
    /// The stored bytes; empty for a directory entry.
    pub data: Vec<u8>,
}

/// The mathematical content of an [`ArchiveEntry`].
pub ghost struct ArchiveEntryView {
    pub name: Seq<char>,
    pub is_dir: bool,
    pub data: Seq<u8>,
}

impl View for ArchiveEntry {
    type V = ArchiveEntryView;

    open spec fn view(&self) -> ArchiveEntryView {
        ArchiveEntryView { name: self.name@, is_dir: self.is_dir, data: self.data@ }
    }
}

impl DeepView for ArchiveEntry {
    type V = ArchiveEntryView;

    open spec fn deep_view(&self) -> ArchiveEntryView {
        self.view()
    }
}

/// The packing rule for one directory entry.
pub open spec fn plan_entry(e: DirEntryView) -> ArchiveEntryView {
    if e.is_dir {
        ArchiveEntryView { name: e.path + seq!['/'], is_dir: true, data: Seq::empty() }
    } else {
        ArchiveEntryView { name: e.path, is_dir: false, data: e.data }
    }
}

/// The packing rule for a directory listing: the root entry (empty path) is
/// omitted; every other entry is planned in listing order.
pub open spec fn plan_of(s: Seq<DirEntryView>) -> Seq<ArchiveEntryView>
    decreases s.len(),
{
    if s.len() == 0 {
        Seq::empty()
    } else if s[0].path.len() == 0 {
        plan_of(s.drop_first())
    } else {
        seq![plan_entry(s[0])] + plan_of(s.drop_first())
    }
}

/// The unpacking rule for one archive entry.
pub open spec fn unplan_entry(a: ArchiveEntryView) -> DirEntryView {
    if a.name.len() > 0 && a.name.last() == '/' {
        DirEntryView { path: a.name.drop_last(), is_dir: true, data: Seq::empty() }
    } else {
        DirEntryView { path: a.name, is_dir: false, data: a.data }
    }
}

/// The unpacking rule for an archive listing.
pub open spec fn unplan_of(s: Seq<ArchiveEntryView>) -> Seq<DirEntryView>
    decreases s.len(),
{
    if s.len() == 0 {
        Seq::empty()
    } else {
        seq![unplan_entry(s[0])] + unplan_of(s.drop_first())
    }
}

/// A directory listing in canonical form: no root entry, no trailing
/// separator on a path, file paths nonempty, directory entries without data.
pub open spec fn canonical_listing(s: Seq<DirEntryView>) -> bool {
    forall|i: int|
        0 <= i < s.len() ==> {
            &&& (#[trigger] s[i]).path.len() > 0
            &&& s[i].path.last() != '/'
            &&& (s[i].is_dir ==> s[i].data.len() == 0)
        }
}

/// A well-formed archive listing: nonempty names, the trailing separator
/// exactly on directory entries, directory entries without data, and no
/// entry standing for the root.
pub open spec fn archive_wf(s: Seq<ArchiveEntryView>) -> bool {
    forall|i: int|
        0 <= i < s.len() ==> {
            &&& (#[trigger] s[i]).name.len() > 0
            &&& (s[i].is_dir <==> s[i].name.last() == '/')
            &&& (s[i].is_dir ==> s[i].data.len() == 0 && s[i].name.len() > 1 && s[i].name[
                s[i].name.len() - 2
            ] != '/')
            &&& (!s[i].is_dir ==> s[i].name.last() != '/')
        }
}

/// Packing a canonical listing yields a well-formed archive with one entry
/// per listed entry, and the root entry always absent.
pub proof fn lemma_plan_wf(s: Seq<DirEntryView>)
    requires
        canonical_listing(s),
    ensures
        archive_wf(plan_of(s)),
        plan_of(s).len() == s.len(),
        forall|i: int| 0 <= i < s.len() ==> plan_of(s)[i] == plan_entry(#[trigger] s[i]),
    decreases s.len(),
{
    if s.len() > 0 {
        assert(s[0].path.len() > 0);
        lemma_plan_wf(s.drop_first());
        let p = plan_of(s);
        let rest = plan_of(s.drop_first());
        assert(p == seq![plan_entry(s[0])] + rest);
        assert forall|i: int| 0 <= i < s.len() implies p[i] == plan_entry(#[trigger] s[i]) by {
            if i > 0 {
                assert(p[i] == rest[i - 1]);
                assert(s.drop_first()[i - 1] == s[i]);
            }
        }
        assert(plan_entry(s[0]).name.len() > 0);
        if s[0].is_dir {
            assert(plan_entry(s[0]).name.last() == '/');
            assert(plan_entry(s[0]).name.drop_last() =~= s[0].path);
            assert(plan_entry(s[0]).name[plan_entry(s[0]).name.len() - 2] == s[0].path.last());
        } else {
            assert(plan_entry(s[0]).name.last() == s[0].path.last());
        }
    }
}

/// Unpacking an archive produced by the packing rule restores the listing:
/// no information is lost by packing.
pub proof fn lemma_unplan_plan_round_trip(s: Seq<DirEntryView>)
    requires
        canonical_listing(s),
    ensures
        unplan_of(plan_of(s)) == s,
    decreases s.len(),
{
    if s.len() == 0 {
        assert(unplan_of(plan_of(s)) =~= s);
    } else {
        lemma_unplan_plan_round_trip(s.drop_first());
        let p = plan_of(s);
        assert(p == seq![plan_entry(s[0])] + p.drop_first()) by {
            assert(p =~= seq![plan_entry(s[0])] + plan_of(s.drop_first()));
        }
        assert(p[0] == plan_entry(s[0]));
        assert(p.drop_first() =~= plan_of(s.drop_first()));
        if s[0].is_dir {
            assert(p[0].name.last() == '/');
            assert(p[0].name.drop_last() =~= s[0].path);
            assert(s[0].data =~= Seq::<u8>::empty());
            assert(unplan_entry(p[0]) == s[0]);
        } else {
            assert(s[0].path.len() > 0 && s[0].path.last() != '/');
            assert(p[0].name == s[0].path);
            assert(p[0].name.last() != '/');
            assert(unplan_entry(p[0]) == s[0]);
        }
        assert(unplan_of(p) == seq![unplan_entry(p[0])] + unplan_of(p.drop_first()));
        assert(unplan_of(p) =~= s);
    }
}

/// Re-packing an unpacked well-formed archive restores it entry for entry:
/// the entry names come back byte-identical, directory and file entries
/// alike, and the root entry stays absent.
pub proof fn lemma_plan_unplan_round_trip(s: Seq<ArchiveEntryView>)
    requires
        archive_wf(s),
    ensures
        plan_of(unplan_of(s)) == s,
    decreases s.len(),
{
    if s.len() == 0 {
        assert(plan_of(unplan_of(s)) =~= s);
    } else {
        lemma_plan_unplan_round_trip(s.drop_first());
        let u = unplan_of(s);
        assert(u == seq![unplan_entry(s[0])] + unplan_of(s.drop_first()));
        assert(u[0] == unplan_entry(s[0]));
        assert(u.drop_first() =~= unplan_of(s.drop_first()));
        if s[0].is_dir {
            assert(s[0].name.last() == '/');
            assert(u[0].path =~= s[0].name.drop_last());
            assert(u[0].path.len() > 0);
            assert(plan_entry(u[0]).name =~= s[0].name);
            assert(plan_entry(u[0]).data =~= s[0].data);
            assert(plan_entry(u[0]) == s[0]);
        } else {
            assert(u[0].path.len() > 0);
            assert(plan_entry(u[0]) == s[0]);
        }
        assert(plan_of(u) == seq![plan_entry(u[0])] + plan_of(u.drop_first()));
        assert(plan_of(u) =~= s);
    }
}

/// Unpacking a well-formed archive yields a canonical listing, so the
/// round trips compose.
pub proof fn lemma_unplan_canonical(s: Seq<ArchiveEntryView>)
    requires
        archive_wf(s),
    ensures
        canonical_listing(unplan_of(s)),
    decreases s.len(),
{
    if s.len() > 0 {
        lemma_unplan_canonical(s.drop_first());
        let u = unplan_of(s);
        assert(u == seq![unplan_entry(s[0])] + unplan_of(s.drop_first()));
        assert forall|i: int| 0 <= i < u.len() implies {
            &&& (#[trigger] u[i]).path.len() > 0
            &&& u[i].path.last() != '/'
            &&& (u[i].is_dir ==> u[i].data.len() == 0)
        } by {
            if i == 0 {
                if s[0].is_dir {
                    assert(u[0].path =~= s[0].name.drop_last());
                    assert(u[0].path.last() == s[0].name[s[0].name.len() - 2]);
                }
            } else {
                assert(u[i] == unplan_of(s.drop_first())[i - 1]);
            }
        }
    }
}

/// Build the archive plan for a directory listing: the packing rule, ready
/// for the writer.
pub fn archive_plan(entries: &Vec<DirEntry>) -> (r: Vec<ArchiveEntry>)
    ensures
        r.deep_view() == plan_of(entries.deep_view()),
{
    let ghost views = entries.deep_view();
    let mut r: Vec<ArchiveEntry> = Vec::new();
    let mut i: usize = 0;
    proof {
        assert(views.take(0) =~= Seq::<DirEntryView>::empty());
        assert(r.deep_view() =~= plan_of(views.take(0)));
    }
    while i < entries.len()
        invariant
            i <= entries.len(),
            views == entries.deep_view(),
            r.deep_view() == plan_of(views.take(i as int)),
        decreases entries.len() - i,
    {
        proof {
            lemma_plan_push(views.take(i as int), views[i as int]);
            assert(views.take(i as int + 1) =~= views.take(i as int).push(views[i as int]));
            assert(views[i as int] == entries.deep_view()[i as int]);
        }
        let e = &entries[i];
        if e.path.as_str().unicode_len() == 0 {
            proof {
                assert(r.deep_view() =~= plan_of(views.take(i as int + 1)));
            }
        } else {
            let planned = if e.is_dir {
                let mut name = e.path.clone();
                name.append("/");
                proof {
                    reveal_strlit("/");
                    assert(name@ =~= e.path@ + seq!['/']);
                }
                ArchiveEntry { name, is_dir: true, data: Vec::new() }
            } else {
                ArchiveEntry {
                    name: e.path.clone(),
                    is_dir: false,
                    data: clone_bytes(&e.data),
                }
            };
            proof {
                assert(planned@.data =~= plan_entry(views[i as int]).data);
                assert(planned@ == plan_entry(views[i as int]));
            }
            push_archive_entry(&mut r, planned);
            proof {
                assert(r.deep_view() =~= plan_of(views.take(i as int + 1)));
            }
        }
        i = i + 1;
    }
    proof {
        assert(views.take(views.len() as int) =~= views);
    }
    r
}

/// Extending a listing by one entry extends its plan by that entry's
/// planned form, unless it is the root.
proof fn lemma_plan_push(s: Seq<DirEntryView>, x: DirEntryView)
    ensures
        plan_of(s.push(x)) == plan_of(s) + (if x.path.len() == 0 {
            Seq::<ArchiveEntryView>::empty()
        } else {
            seq![plan_entry(x)]
        }),
    decreases s.len(),
{
    let xe = if x.path.len() == 0 {
        Seq::<ArchiveEntryView>::empty()
    } else {
        seq![plan_entry(x)]
    };
    if s.len() == 0 {
        assert(s.push(x)[0] == x);
        assert(s.push(x).drop_first() =~= Seq::<DirEntryView>::empty());
        assert(plan_of(Seq::<DirEntryView>::empty()) == Seq::<ArchiveEntryView>::empty());
        assert(plan_of(s.push(x)) =~= plan_of(s) + xe);
    } else {
        assert(s.push(x)[0] == s[0]);
        assert(s.push(x).drop_first() =~= s.drop_first().push(x));
        lemma_plan_push(s.drop_first(), x);
        if s[0].path.len() == 0 {
            assert(plan_of(s.push(x)) == plan_of(s.drop_first().push(x)));
            assert(plan_of(s.push(x)) =~= plan_of(s) + xe);
        } else {
            assert(plan_of(s.push(x)) == seq![plan_entry(s[0])] + plan_of(
                s.drop_first().push(x),
            ));
            assert(plan_of(s.push(x)) =~= plan_of(s) + xe);
        }
    }
}

/// Clone a byte vector.
pub fn clone_bytes(v: &Vec<u8>) -> (r: Vec<u8>)
    ensures
        r@ == v@,
{
    let mut r: Vec<u8> = Vec::new();
    let mut i: usize = 0;
    while i < v.len()
        invariant
            i <= v.len(),
            r@ =~= v@.take(i as int),
        decreases v.len() - i,
    {
        r.push(v[i]);
        proof {
            assert(r@ =~= v@.take(i as int + 1));
        }
        i = i + 1;
    }
    proof {
        assert(r@ =~= v@);
    }
    r
}

/// Push one archive entry, tracking the deep view.
fn push_archive_entry(v: &mut Vec<ArchiveEntry>, e: ArchiveEntry)
    ensures
        final(v).deep_view() == old(v).deep_view() + seq![e@],
{
    let ghost before = v.deep_view();
    let ghost ev = e@;
    v.push(e);
    proof {
        let now = v.deep_view();
        assert forall|j: int| 0 <= j < now.len() implies now[j] == (before + seq![ev])[j] by {
            assert(now[j] == v@[j]@);
            if j < before.len() {
                assert(before[j] == old(v)@[j]@);
            }
        }
        assert(now =~= before + seq![ev]);
    }
}

/// Error raised while writing an archive, with the offending entry or
/// artifact for context.
#[derive(Debug)]
pub struct PackagingError {
    /// The entry or artifact the failure is about.
    pub context: String,
    /// What went wrong.
    pub message: String,
}

/// The mathematical content of a [`PackagingError`].
pub ghost struct PackagingErrorView {
    pub context: Seq<char>,
    pub message: Seq<char>,
}

impl View for PackagingError {
    type V = PackagingErrorView;

    open spec fn view(&self) -> PackagingErrorView {
        PackagingErrorView { context: self.context@, message: self.message@ }
    }
}

#[verifier::external_type_specification]
#[verifier::external_body]
pub struct ExZipError(zip::result::ZipError);

/// A ZIP writer over an in-memory buffer. The writer itself is the `zip`
/// crate's; Verus sees it only through [`zip_contents`] and the trusted
/// functions below.
#[verifier::external_body]
pub struct ArchiveWriter {
    inner: zip::ZipWriter<Cursor<Vec<u8>>>,
}

/// One request handed to the ZIP writer: the stored entry name, whether it
/// was added as a directory entry, the stored bytes, and the Unix
/// permissions requested for it.
pub type ZipRequest = (Seq<char>, bool, Seq<u8>, Option<u32>);

/// The requests a ZIP writer has accepted so far, in order.
pub uninterp spec fn zip_contents(w: ArchiveWriter) -> Seq<ZipRequest>;

/// The archive bytes the writer produces for the given requests. The writer
/// is configured with a fixed timestamp and DEFLATE compression over an
/// in-memory buffer, so the bytes depend on the requests alone.
pub uninterp spec fn zip_encoding(entries: Seq<ZipRequest>) -> Seq<u8>;

/// Whether `zip::ZipWriter::add_directory` accepts a directory entry of this
/// stored name, after the given accepted requests. The writer runs over an
/// in-memory buffer, so the outcome depends on these arguments alone.
pub uninterp spec fn zip_admits_directory(
    prior: Seq<ZipRequest>,
    name: Seq<char>,
    permissions: Option<u32>,
) -> bool;

/// Whether `zip::ZipWriter::start_file` followed by writing the bytes
/// accepts a file entry, after the given accepted requests; as above, a
/// function of the arguments alone.
pub uninterp spec fn zip_admits_file(
    prior: Seq<ZipRequest>,
    name: Seq<char>,
    data: Seq<u8>,
    permissions: Option<u32>,
) -> bool;

/// Whether `zip::ZipWriter::finish` succeeds on a writer holding exactly
/// these accepted requests; a function of the requests alone.
pub uninterp spec fn zip_finishes(entries: Seq<ZipRequest>) -> bool;

/// Whether the writer accepts this request sequence, request by request.
pub open spec fn zip_accepts(entries: Seq<ZipRequest>) -> bool
    decreases entries.len(),
{
    if entries.len() == 0 {
        true
    } else {
        let prior = entries.drop_last();
        let last = entries.last();
        zip_accepts(prior) && (if last.1 {
            zip_admits_directory(prior, last.0, last.3)
        } else {
            zip_admits_file(prior, last.0, last.2, last.3)
        })
    }
}

/// Whether the writer turns this request sequence into archive bytes: every
/// request accepted, and the final assembly too.
pub open spec fn zip_packable(entries: Seq<ZipRequest>) -> bool {
    zip_accepts(entries) && zip_finishes(entries)
}

/// Every prefix of an accepted request sequence is accepted.
pub proof fn lemma_zip_accepts_take(entries: Seq<ZipRequest>, k: int)
    requires
        zip_accepts(entries),
        0 <= k <= entries.len(),
    ensures
        zip_accepts(entries.take(k)),
    decreases entries.len(),
{
    if k < entries.len() {
        assert(entries.drop_last() =~= entries.take(entries.len() - 1));
        lemma_zip_accepts_take(entries.drop_last(), k);
        assert(entries.drop_last().take(k) =~= entries.take(k));
    } else {
        assert(entries.take(k) =~= entries);
    }
}

/// The name a directory entry is stored under: a trailing separator is
/// appended unless one is already there.
pub open spec fn dir_stored_name(n: Seq<char>) -> Seq<char> {
    if n.len() > 0 && (n.last() == '/' || n.last() == '\\') {
        n
    } else {
        n + seq!['/']
    }
}

/// Relies on `zip::ZipWriter::new` over an in-memory cursor: a fresh writer
/// holds no requests.
#[verifier::external_body]
fn zip_writer_new() -> (w: ArchiveWriter)
    ensures
        zip_contents(w) == Seq::<ZipRequest>::empty(),
{
    ArchiveWriter { inner: zip::ZipWriter::new(Cursor::new(Vec::new())) }
}

/// Relies on `zip::ZipWriter::add_directory`: on a writer whose requests
/// were all accepted, it succeeds exactly when it admits the entry (its only
/// failure source over an in-memory buffer is its own bookkeeping, a
/// function of the requests so far); on success the archive gains a
/// directory entry under the given name, with a trailing separator appended
/// where missing, holding no bytes.
#[verifier::external_body]
fn zip_add_directory(
    w: &mut ArchiveWriter,
    name: &String,
    permissions: Option<u32>,
) -> (r: Result<(), zip::result::ZipError>)
    requires
        zip_accepts(zip_contents(*old(w))),
    ensures
        r is Ok <==> zip_admits_directory(
            zip_contents(*old(w)),
            dir_stored_name(name@),
            permissions,
        ),
        r is Ok ==> zip_contents(*final(w)) == zip_contents(*old(w)).push(
            (dir_stored_name(name@), true, Seq::<u8>::empty(), permissions),
        ),
{
    let mut options = zip::write::SimpleFileOptions::DEFAULT
        .compression_method(zip::CompressionMethod::Deflated);
    if let Some(p) = permissions {
        options = options.unix_permissions(p);
    }
    w.inner.add_directory(name.as_str(), options)
}

/// Relies on `zip::ZipWriter::start_file` and `std::io::Write::write_all`:
/// on a writer whose requests were all accepted, the pair succeeds exactly
/// when the writer admits the entry (duplicate names and oversize data are
/// refused; writes to the in-memory buffer themselves cannot fail); on
/// success the archive gains a file entry of the given name and bytes.
#[verifier::external_body]
fn zip_add_file(
    w: &mut ArchiveWriter,
    name: &String,
    data: &Vec<u8>,
    permissions: Option<u32>,
) -> (r: Result<(), zip::result::ZipError>)
    requires
        zip_accepts(zip_contents(*old(w))),
    ensures
        r is Ok <==> zip_admits_file(zip_contents(*old(w)), name@, data@, permissions),
        r is Ok ==> zip_contents(*final(w)) == zip_contents(*old(w)).push(
            (name@, false, data@, permissions),
        ),
{
    let mut options = zip::write::SimpleFileOptions::DEFAULT
        .compression_method(zip::CompressionMethod::Deflated);
    if let Some(p) = permissions {
        options = options.unix_permissions(p);
    }
    w.inner.start_file(name.as_str(), options)?;
    w.inner.write_all(data.as_slice()).map_err(zip::result::ZipError::from)
}

/// Relies on `zip::ZipWriter::finish` and `Cursor::into_inner`: on a writer
/// whose requests were all accepted, assembly succeeds exactly when the
/// writer can finalize those requests (a function of the requests alone over
/// an in-memory buffer), and then the bytes are the archive encoding of the
/// requests.
#[verifier::external_body]
fn zip_finish(w: ArchiveWriter) -> (r: Result<Vec<u8>, zip::result::ZipError>)
    requires
        zip_accepts(zip_contents(w)),
    ensures
        r is Ok <==> zip_finishes(zip_contents(w)),
        r matches Ok(b) ==> b@ == zip_encoding(zip_contents(w)),
{
    let cursor = w.inner.finish()?;
    Ok(cursor.into_inner())
}

/// Relies on the `Display` rendering of `zip::result::ZipError` for the
/// human-readable failure text.
#[verifier::external_body]
fn zip_error_message(e: &zip::result::ZipError) -> (r: String)
{
    format!("{e}")
}

/// What one planned entry asks of the writer.
pub open spec fn request_entry(e: ArchiveEntryView, permissions: Option<u32>) -> ZipRequest {
    if e.is_dir {
        (dir_stored_name(e.name), true, Seq::<u8>::empty(), permissions)
    } else {
        (e.name, false, e.data, permissions)
    }
}

/// What a whole plan asks of the writer, in order.
pub open spec fn requests_of(plan: Seq<ArchiveEntryView>, permissions: Option<u32>) -> Seq<
    ZipRequest,
> {
    plan.map_values(|e: ArchiveEntryView| request_entry(e, permissions))
}

/// Write a planned archive into ZIP container bytes: each entry in plan
/// order, DEFLATE compression, a fixed timestamp, and the given Unix
/// permissions on every entry when requested. The same plan always yields
/// the same bytes. Success is owed whenever the writer can pack the plan's
/// requests (in particular, the stored names distinct and no entry
/// oversized); a failure carries the offending entry's name and witnesses
/// that the requests were not packable.
pub fn pack_archive(plan: &Vec<ArchiveEntry>, permissions: Option<u32>) -> (r: Result<
    Vec<u8>,
    PackagingError,
>)
    ensures
        r matches Ok(b) ==> b@ == zip_encoding(requests_of(plan.deep_view(), permissions)),
        zip_packable(requests_of(plan.deep_view(), permissions)) ==> r is Ok,
        r is Err ==> !zip_packable(requests_of(plan.deep_view(), permissions)),
        r matches Err(e) ==> ((exists|i: int|
            0 <= i < plan.deep_view().len() && e@.context == (
            #[trigger] plan.deep_view()[i]).name) || e@.context == Seq::<char>::empty()),
{
    let ghost views = plan.deep_view();
    let ghost requests = requests_of(views, permissions);
    let mut w = zip_writer_new();
    let mut i: usize = 0;
    proof {
        assert(zip_contents(w) =~= requests.take(0));
        assert(zip_accepts(zip_contents(w)));
    }
    while i < plan.len()
        invariant
            i <= plan.len(),
            views == plan.deep_view(),
            requests == requests_of(views, permissions),
            zip_contents(w) == requests.take(i as int),
            zip_accepts(zip_contents(w)),
        decreases plan.len() - i,
    {
        let e = &plan[i];
        proof {
            assert(views[i as int] == plan.deep_view()[i as int]);
            assert(requests[i as int] == request_entry(views[i as int], permissions));
            assert(requests.take(i as int + 1).drop_last() =~= requests.take(i as int));
            assert(requests.take(i as int + 1).last() == requests[i as int]);
        }
        let step = if e.is_dir {
            zip_add_directory(&mut w, &e.name, permissions)
        } else {
            zip_add_file(&mut w, &e.name, &e.data, permissions)
        };
        match step {
            Result::Ok(()) => {
                proof {
                    assert(zip_contents(w) =~= requests.take(i as int + 1));
                    assert(zip_accepts(requests.take(i as int + 1)));
                }
            },
            Result::Err(err) => {
                proof {
                    // The step was refused, so the extended prefix is not
                    // accepted, hence neither is the whole request sequence.
                    assert(!zip_accepts(requests.take(i as int + 1)));
                    if zip_accepts(requests) {
                        lemma_zip_accepts_take(requests, i as int + 1);
                    }
                    assert(!zip_packable(requests));
                }
                let message = zip_error_message(&err);
                return Err(PackagingError { context: e.name.clone(), message });
            },
        }
        i = i + 1;
    }
    proof {
        assert(views.take(views.len() as int) =~= views);
        assert(requests.take(requests.len() as int) =~= requests);
    }
    match zip_finish(w) {
        Result::Ok(bytes) => Ok(bytes),
        Result::Err(err) => {
            proof {
                assert(!zip_finishes(requests));
                assert(!zip_packable(requests));
            }
            let message = zip_error_message(&err);
            Err(PackagingError { context: String::new(), message })
        },
    }
}

} // verus!
