//! Materialization: converting prepared artifacts into their final
//! deliverable form in the output directory.
//!
//! Download mode skips an artifact whose filename already exists and writes
//! the others (packing unpacked directories, copying wheel files verbatim).
//! Build mode always (re)packs into the output directory, overwriting, with
//! standard Unix permission bits on packed entries. Results are ordered by
//! filename whatever order preparation settled in, so reporting is
//! deterministic.

use vstd::prelude::*;
use vstd::relations::sorted_by;
use vstd::seq_lib::lemma_sorted_unique;

use crate::archive::{
    archive_plan, pack_archive, plan_of, requests_of, zip_encoding, zip_packable, DirEntry,
    DirEntryView, PackagingError,
};
use crate::strutil::{insert_sorted, lex_leq, str_eq};

verus! {

/// The outcome recorded for one artifact.
#[derive(Clone, Copy, Debug, PartialEq, Eq, Structural)]
pub enum Outcome {
    /// Written by download mode.
    Downloaded,
    /// Left alone by download mode: a file of that name already existed.
    SkippedExisting,
    /// Written by build mode.
    Built,
}

/// The recorded outcome for one artifact, immutable once created.
pub struct MaterializedResult {
    /// The artifact's filename in the output directory.
    pub filename: String,
    /// What happened to it.
    pub outcome: Outcome,
}

/// The mathematical content of a [`MaterializedResult`].
pub ghost struct MaterializedResultView {
    pub filename: Seq<char>,
    pub outcome: Outcome,
}

impl View for MaterializedResult {
    type V = MaterializedResultView;

    open spec fn view(&self) -> MaterializedResultView {
        MaterializedResultView { filename: self.filename@, outcome: self.outcome }
    }
}

impl DeepView for MaterializedResult {
    type V = MaterializedResultView;

    open spec fn deep_view(&self) -> MaterializedResultView {
        self.view()
    }
}

/// What a prepared artifact holds: a single wheel file, or an unpacked
/// directory listing.
pub enum ArtifactContent {
    /// The bytes of a wheel file, copied verbatim.
    WheelFile(Vec<u8>),
    /// An unpacked wheel directory, packed before writing.
    UnpackedDirectory(Vec<DirEntry>),
}

/// The mathematical content of an [`ArtifactContent`].
pub ghost enum ArtifactContentView {
    WheelFile(Seq<u8>),
    UnpackedDirectory(Seq<DirEntryView>),
}

impl View for ArtifactContent {
    type V = ArtifactContentView;

    open spec fn view(&self) -> ArtifactContentView {
        match self {
            ArtifactContent::WheelFile(b) => ArtifactContentView::WheelFile(b@),
            ArtifactContent::UnpackedDirectory(es) => ArtifactContentView::UnpackedDirectory(
                es.deep_view(),
            ),
        }
    }
}

/// One artifact handed to the materializer: its destination filename and its
/// prepared content.
pub struct MaterializeInput {
    /// The canonical destination filename.
    pub filename: String,
    /// The prepared content.
    pub content: ArtifactContent,
}

/// The mathematical content of a [`MaterializeInput`].
pub ghost struct MaterializeInputView {
    pub filename: Seq<char>,
    pub content: ArtifactContentView,
}

impl View for MaterializeInput {
    type V = MaterializeInputView;

    open spec fn view(&self) -> MaterializeInputView {
        MaterializeInputView { filename: self.filename@, content: self.content@ }
    }
}

impl DeepView for MaterializeInput {
    type V = MaterializeInputView;

    open spec fn deep_view(&self) -> MaterializeInputView {
        self.view()
    }
}

/// One file write the caller must perform in the output directory.
pub struct WriteAction {
    /// The destination filename.
    pub filename: String,
    /// The bytes to write.
    pub bytes: Vec<u8>,
}

/// The mathematical content of a [`WriteAction`].
pub ghost struct WriteActionView {
    pub filename: Seq<char>,
    pub bytes: Seq<u8>,
}

impl View for WriteAction {
    type V = WriteActionView;

    open spec fn view(&self) -> WriteActionView {
        WriteActionView { filename: self.filename@, bytes: self.bytes@ }
    }
}

impl DeepView for WriteAction {
    type V = WriteActionView;

    open spec fn deep_view(&self) -> WriteActionView {
        self.view()
    }
}

/// The filenames of a list of inputs, in order.
pub open spec fn input_names(s: Seq<MaterializeInputView>) -> Seq<Seq<char>> {
    s.map_values(|m: MaterializeInputView| m.filename)
}

/// No two inputs share a filename. Filenames are unique per resolved
/// distribution, so every write has a single writer.
pub open spec fn distinct_names(s: Seq<MaterializeInputView>) -> bool {
    forall|i: int, j: int|
        0 <= i < j < s.len() ==> (#[trigger] s[i]).filename != (#[trigger] s[j]).filename
}

/// The bytes written for one content under the given entry permissions.
pub open spec fn payload_bytes(c: ArtifactContentView, permissions: Option<u32>) -> Seq<u8> {
    match c {
        ArtifactContentView::WheelFile(b) => b,
        ArtifactContentView::UnpackedDirectory(es) => zip_encoding(
            requests_of(plan_of(es), permissions),
        ),
    }
}

/// Whether one content can be written: a wheel file always; an unpacked
/// directory exactly when the archive writer can pack its plan.
pub open spec fn content_packable(c: ArtifactContentView, permissions: Option<u32>) -> bool {
    match c {
        ArtifactContentView::WheelFile(_) => true,
        ArtifactContentView::UnpackedDirectory(es) => zip_packable(
            requests_of(plan_of(es), permissions),
        ),
    }
}

/// The first input carrying the given filename.
pub open spec fn find_input(s: Seq<MaterializeInputView>, n: Seq<char>) -> MaterializeInputView
    decreases s.len(),
{
    if s.len() == 0 {
        arbitrary()
    } else if s[0].filename == n {
        s[0]
    } else {
        find_input(s.drop_first(), n)
    }
}

/// Whether a name is not yet in the output directory.
pub open spec fn missing_pred(existing: Seq<Seq<char>>) -> spec_fn(Seq<char>) -> bool {
    |n: Seq<char>| !existing.contains(n)
}

/// The download-mode outcome for one name.
pub open spec fn download_outcome(existing: Seq<Seq<char>>, n: Seq<char>) -> Outcome {
    if existing.contains(n) {
        Outcome::SkippedExisting
    } else {
        Outcome::Downloaded
    }
}

/// The download-mode results for names in report order.
pub open spec fn download_results(names: Seq<Seq<char>>, existing: Seq<Seq<char>>) -> Seq<
    MaterializedResultView,
> {
    names.map_values(
        |n: Seq<char>|
            MaterializedResultView { filename: n, outcome: download_outcome(existing, n) },
    )
}

/// The download-mode writes for names in report order: one write per name
/// not already present, with its input's bytes, default entry permissions.
pub open spec fn download_writes(
    names: Seq<Seq<char>>,
    inputs: Seq<MaterializeInputView>,
    existing: Seq<Seq<char>>,
) -> Seq<WriteActionView> {
    names.filter(missing_pred(existing)).map_values(
        |n: Seq<char>|
            WriteActionView {
                filename: n,
                bytes: payload_bytes(find_input(inputs, n).content, Option::None),
            },
    )
}

/// The build-mode results for names in report order: everything is built.
pub open spec fn build_results(names: Seq<Seq<char>>) -> Seq<MaterializedResultView> {
    names.map_values(
        |n: Seq<char>| MaterializedResultView { filename: n, outcome: Outcome::Built },
    )
}

/// The Unix permission bits set on packed entries in build mode.
pub open spec fn build_permissions() -> Option<u32> {
    Option::Some(0o644u32)
}

/// The build-mode writes: one write per name, always, overwriting whatever
/// the output directory held.
pub open spec fn build_writes(
    names: Seq<Seq<char>>,
    inputs: Seq<MaterializeInputView>,
) -> Seq<WriteActionView> {
    names.map_values(
        |n: Seq<char>|
            WriteActionView {
                filename: n,
                bytes: payload_bytes(find_input(inputs, n).content, build_permissions()),
            },
    )
}

/// Materialize prepared artifacts in download mode: results are ordered by
/// filename; an artifact whose filename already exists in the output
/// directory is skipped with no write; every other artifact is written, an
/// unpacked directory as a packed archive, a wheel file verbatim. Success is
/// owed whenever every artifact that must be written is packable; a failure
/// witnesses one that is not.
pub fn materialize_download(
    inputs: &Vec<MaterializeInput>,
    existing: &Vec<String>,
) -> (r: Result<(Vec<MaterializedResult>, Vec<WriteAction>), PackagingError>)
    requires
        distinct_names(inputs.deep_view()),
    ensures
        (forall|i: int|
            0 <= i < inputs.deep_view().len() && !existing.deep_view().contains(
                (#[trigger] inputs.deep_view()[i]).filename,
            ) ==> content_packable(inputs.deep_view()[i].content, Option::None)) ==> r is Ok,
        r is Err ==> exists|i: int|
            0 <= i < inputs.deep_view().len() && !existing.deep_view().contains(
                (#[trigger] inputs.deep_view()[i]).filename,
            ) && !content_packable(inputs.deep_view()[i].content, Option::None),
        r matches Ok((results, actions)) ==> {
            let rnames = results.deep_view().map_values(
                |m: MaterializedResultView| m.filename,
            );
            &&& sorted_by(rnames, lex_leq())
            &&& rnames.to_multiset() == input_names(inputs.deep_view()).to_multiset()
            &&& results.deep_view() == download_results(rnames, existing.deep_view())
            &&& actions.deep_view() == download_writes(
                rnames,
                inputs.deep_view(),
                existing.deep_view(),
            )
        },
{
    let sorted = sorted_filenames(inputs);
    let ghost rnames = sorted.deep_view();
    let mut results: Vec<MaterializedResult> = Vec::new();
    let mut actions: Vec<WriteAction> = Vec::new();
    let mut i: usize = 0;
    proof {
        assert(rnames.take(0) =~= Seq::<Seq<char>>::empty());
        assert(results.deep_view() =~= download_results(rnames.take(0), existing.deep_view()));
        reveal(Seq::filter);
        assert(actions.deep_view() =~= download_writes(
            rnames.take(0),
            inputs.deep_view(),
            existing.deep_view(),
        ));
    }
    while i < sorted.len()
        invariant
            i <= sorted.len(),
            rnames == sorted.deep_view(),
            rnames.to_multiset() == input_names(inputs.deep_view()).to_multiset(),
            distinct_names(inputs.deep_view()),
            results.deep_view() == download_results(rnames.take(i as int), existing.deep_view()),
            actions.deep_view() == download_writes(
                rnames.take(i as int),
                inputs.deep_view(),
                existing.deep_view(),
            ),
        decreases sorted.len() - i,
    {
        proof {
            assert(rnames[i as int] == sorted.deep_view()[i as int]);
            lemma_names_take_one_more(rnames, i as int, inputs.deep_view(), existing.deep_view());
        }
        let name = &sorted[i];
        let present = contains_name(existing, name.as_str());
        if present {
            push_result(
                &mut results,
                MaterializedResult { filename: name.clone(), outcome: Outcome::SkippedExisting },
            );
            proof {
                assert(results.deep_view() =~= download_results(
                    rnames.take(i as int + 1),
                    existing.deep_view(),
                ));
                assert(actions.deep_view() =~= download_writes(
                    rnames.take(i as int + 1),
                    inputs.deep_view(),
                    existing.deep_view(),
                ));
            }
        } else {
            let k = find_by_name(inputs, name.as_str());
            let bytes = match &inputs[k].content {
                ArtifactContent::WheelFile(b) => crate::archive::clone_bytes(b),
                ArtifactContent::UnpackedDirectory(es) => {
                    let plan = archive_plan(es);
                    match pack_archive(&plan, Option::None) {
                        Result::Ok(b) => b,
                        Result::Err(e) => {
                            proof {
                                // This artifact must be written and cannot be
                                // packed, so the run is not owed success.
                                assert(!existing.deep_view().contains(
                                    (inputs.deep_view()[k as int]).filename,
                                ));
                                assert(!content_packable(
                                    inputs.deep_view()[k as int].content,
                                    Option::<u32>::None,
                                ));
                            }
                            return Err(e);
                        },
                    }
                },
            };
            proof {
                assert(bytes@ == payload_bytes(
                    find_input(inputs.deep_view(), rnames[i as int]).content,
                    Option::<u32>::None,
                ));
            }
            push_result(
                &mut results,
                MaterializedResult { filename: name.clone(), outcome: Outcome::Downloaded },
            );
            push_action(&mut actions, WriteAction { filename: name.clone(), bytes });
            proof {
                assert(results.deep_view() =~= download_results(
                    rnames.take(i as int + 1),
                    existing.deep_view(),
                ));
                assert(actions.deep_view() =~= download_writes(
                    rnames.take(i as int + 1),
                    inputs.deep_view(),
                    existing.deep_view(),
                ));
            }
        }
        i = i + 1;
    }
    proof {
        assert(rnames.take(rnames.len() as int) =~= rnames);
        let out_names = results.deep_view().map_values(
            |m: MaterializedResultView| m.filename,
        );
        assert(out_names =~= rnames);
    }
    Ok((results, actions))
}

/// Materialize prepared artifacts in build mode: results are ordered by
/// filename; every artifact is packed with standard Unix permission bits and
/// written, overwriting without a skip check. Success is owed whenever every
/// artifact is packable; a failure witnesses one that is not.
pub fn materialize_build(inputs: &Vec<MaterializeInput>) -> (r: Result<
    (Vec<MaterializedResult>, Vec<WriteAction>),
    PackagingError,
>)
    requires
        distinct_names(inputs.deep_view()),
    ensures
        (forall|i: int|
            0 <= i < inputs.deep_view().len() ==> content_packable(
                (#[trigger] inputs.deep_view()[i]).content,
                build_permissions(),
            )) ==> r is Ok,
        r is Err ==> exists|i: int|
            0 <= i < inputs.deep_view().len() && !content_packable(
                (#[trigger] inputs.deep_view()[i]).content,
                build_permissions(),
            ),
        r matches Ok((results, actions)) ==> {
            let rnames = results.deep_view().map_values(
                |m: MaterializedResultView| m.filename,
            );
            &&& sorted_by(rnames, lex_leq())
            &&& rnames.to_multiset() == input_names(inputs.deep_view()).to_multiset()
            &&& results.deep_view() == build_results(rnames)
            &&& actions.deep_view() == build_writes(rnames, inputs.deep_view())
        },
{
    let sorted = sorted_filenames(inputs);
    let ghost rnames = sorted.deep_view();
    let mut results: Vec<MaterializedResult> = Vec::new();
    let mut actions: Vec<WriteAction> = Vec::new();
    let mut i: usize = 0;
    proof {
        assert(rnames.take(0) =~= Seq::<Seq<char>>::empty());
        assert(results.deep_view() =~= build_results(rnames.take(0)));
        assert(actions.deep_view() =~= build_writes(rnames.take(0), inputs.deep_view()));
    }
    while i < sorted.len()
        invariant
            i <= sorted.len(),
            rnames == sorted.deep_view(),
            rnames.to_multiset() == input_names(inputs.deep_view()).to_multiset(),
            distinct_names(inputs.deep_view()),
            results.deep_view() == build_results(rnames.take(i as int)),
            actions.deep_view() == build_writes(rnames.take(i as int), inputs.deep_view()),
        decreases sorted.len() - i,
    {
        proof {
            assert(rnames[i as int] == sorted.deep_view()[i as int]);
            lemma_name_in_multiset(rnames, i as int, inputs.deep_view());
        }
        let name = &sorted[i];
        let k = find_by_name(inputs, name.as_str());
        let bytes = match &inputs[k].content {
            ArtifactContent::WheelFile(b) => crate::archive::clone_bytes(b),
            ArtifactContent::UnpackedDirectory(es) => {
                let plan = archive_plan(es);
                match pack_archive(&plan, Option::Some(0o644u32)) {
                    Result::Ok(b) => b,
                    Result::Err(e) => {
                        proof {
                            // This artifact cannot be packed, so the run is
                            // not owed success.
                            assert(!content_packable(
                                inputs.deep_view()[k as int].content,
                                build_permissions(),
                            ));
                        }
                        return Err(e);
                    },
                }
            },
        };
        proof {
            assert(bytes@ == payload_bytes(
                find_input(inputs.deep_view(), rnames[i as int]).content,
                build_permissions(),
            ));
        }
        push_result(
            &mut results,
            MaterializedResult { filename: name.clone(), outcome: Outcome::Built },
        );
        push_action(&mut actions, WriteAction { filename: name.clone(), bytes });
        proof {
            assert(rnames.take(i as int + 1) =~= rnames.take(i as int).push(rnames[i as int]));
            assert(results.deep_view() =~= build_results(rnames.take(i as int + 1)));
            assert(actions.deep_view() =~= build_writes(
                rnames.take(i as int + 1),
                inputs.deep_view(),
            ));
        }
        i = i + 1;
    }
    proof {
        assert(rnames.take(rnames.len() as int) =~= rnames);
        let out_names = results.deep_view().map_values(
            |m: MaterializedResultView| m.filename,
        );
        assert(out_names =~= rnames);
    }
    Ok((results, actions))
}

/// The input filenames sorted lexicographically.
fn sorted_filenames(inputs: &Vec<MaterializeInput>) -> (r: Vec<String>)
    ensures
        sorted_by(r.deep_view(), lex_leq()),
        r.deep_view().to_multiset() == input_names(inputs.deep_view()).to_multiset(),
{
    broadcast use vstd::seq_lib::group_to_multiset_ensures;

    let ghost views = inputs.deep_view();
    let mut r: Vec<String> = Vec::new();
    let mut i: usize = 0;
    proof {
        assert(input_names(views.take(0)) =~= Seq::<Seq<char>>::empty());
        assert(r.deep_view() =~= Seq::<Seq<char>>::empty());
        assert(r.deep_view().to_multiset() =~= input_names(views.take(0)).to_multiset());
    }
    while i < inputs.len()
        invariant
            i <= inputs.len(),
            views == inputs.deep_view(),
            sorted_by(r.deep_view(), lex_leq()),
            r.deep_view().to_multiset() == input_names(views.take(i as int)).to_multiset(),
        decreases inputs.len() - i,
    {
        broadcast use vstd::seq_lib::group_to_multiset_ensures;

        proof {
            assert(views[i as int] == inputs.deep_view()[i as int]);
        }
        let name = inputs[i].filename.clone();
        proof {
            assert(name@ == views[i as int].filename);
        }
        insert_sorted(&mut r, name);
        proof {
            let prev = input_names(views.take(i as int));
            let now = input_names(views.take(i as int + 1));
            assert(now =~= prev.push(views[i as int].filename));
            assert(now.to_multiset() == prev.to_multiset().insert(views[i as int].filename));
        }
        i = i + 1;
    }
    proof {
        assert(views.take(views.len() as int) =~= views);
    }
    r
}

/// Whether the output directory already holds the given filename.
fn contains_name(existing: &Vec<String>, name: &str) -> (r: bool)
    ensures
        r == existing.deep_view().contains(name@),
{
    let mut k: usize = 0;
    while k < existing.len()
        invariant
            k <= existing.len(),
            forall|j: int| 0 <= j < k ==> existing.deep_view()[j] != name@,
        decreases existing.len() - k,
    {
        proof {
            assert(existing.deep_view()[k as int] == existing@[k as int]@);
        }
        if str_eq(existing[k].as_str(), name) {
            return true;
        }
        k = k + 1;
    }
    proof {
        if existing.deep_view().contains(name@) {
            let j = choose|j: int|
                0 <= j < existing.deep_view().len() && existing.deep_view()[j] == name@;
            assert(false);
        }
    }
    false
}

/// The index of the first input carrying the given filename, which mirrors
/// [`find_input`].
fn find_by_name(inputs: &Vec<MaterializeInput>, name: &str) -> (k: usize)
    requires
        exists|j: int|
            0 <= j < inputs.deep_view().len() && (#[trigger] inputs.deep_view()[j]).filename
                == name@,
    ensures
        k < inputs.deep_view().len(),
        inputs.deep_view()[k as int] == find_input(inputs.deep_view(), name@),
        inputs.deep_view()[k as int].filename == name@,
{
    let ghost views = inputs.deep_view();
    proof {
        assert(views.skip(0) =~= views);
    }
    let mut k: usize = 0;
    while k < inputs.len()
        invariant
            k <= inputs.len(),
            views == inputs.deep_view(),
            exists|j: int|
                0 <= j < views.len() && (#[trigger] views[j]).filename == name@,
            forall|j: int| 0 <= j < k ==> (#[trigger] views[j]).filename != name@,
            find_input(views, name@) == find_input(views.skip(k as int), name@),
        decreases inputs.len() - k,
    {
        proof {
            assert(views.skip(k as int)[0] == views[k as int]);
            assert(views.skip(k as int).drop_first() =~= views.skip(k as int + 1));
        }
        proof {
            assert(views[k as int] == inputs.deep_view()[k as int]);
        }
        if str_eq(inputs[k].filename.as_str(), name) {
            return k;
        }
        k = k + 1;
    }
    proof {
        let j = choose|j: int| 0 <= j < views.len() && (#[trigger] views[j]).filename == name@;
        assert(false);
    }
    0
}

/// Push one result, tracking the deep view.
fn push_result(v: &mut Vec<MaterializedResult>, x: MaterializedResult)
    ensures
        final(v).deep_view() == old(v).deep_view() + seq![x@],
{
    let ghost before = v.deep_view();
    let ghost xv = x@;
    v.push(x);
    proof {
        let now = v.deep_view();
        assert forall|j: int| 0 <= j < now.len() implies now[j] == (before + seq![xv])[j] by {
            assert(now[j] == v@[j]@);
            if j < before.len() {
                assert(before[j] == old(v)@[j]@);
            }
        }
        assert(now =~= before + seq![xv]);
    }
}

/// Push one write action, tracking the deep view.
fn push_action(v: &mut Vec<WriteAction>, x: WriteAction)
    ensures
        final(v).deep_view() == old(v).deep_view() + seq![x@],
{
    let ghost before = v.deep_view();
    let ghost xv = x@;
    v.push(x);
    proof {
        let now = v.deep_view();
        assert forall|j: int| 0 <= j < now.len() implies now[j] == (before + seq![xv])[j] by {
            assert(now[j] == v@[j]@);
            if j < before.len() {
                assert(before[j] == old(v)@[j]@);
            }
        }
        assert(now =~= before + seq![xv]);
    }
}

/// A sorted name list's entry is in the inputs (needed to find its input),
/// and extending the processed prefix by it extends the planned results and
/// writes.
proof fn lemma_names_take_one_more(
    rnames: Seq<Seq<char>>,
    i: int,
    inputs: Seq<MaterializeInputView>,
    existing: Seq<Seq<char>>,
)
    requires
        0 <= i < rnames.len(),
        rnames.to_multiset() == input_names(inputs).to_multiset(),
    ensures
        exists|j: int|
            0 <= j < inputs.len() && (#[trigger] inputs[j]).filename == rnames[i],
        rnames.take(i + 1) == rnames.take(i).push(rnames[i]),
        rnames.take(i + 1).filter(missing_pred(existing)) == rnames.take(i).filter(
            missing_pred(existing),
        ) + (if existing.contains(rnames[i]) {
            Seq::<Seq<char>>::empty()
        } else {
            seq![rnames[i]]
        }),
{
    lemma_name_in_multiset(rnames, i, inputs);
    assert(rnames.take(i + 1) =~= rnames.take(i).push(rnames[i]));
    crate::strutil::lemma_filter_take_one_more(rnames, i, missing_pred(existing));
    if existing.contains(rnames[i]) {
        assert(!missing_pred(existing)(rnames[i]));
    } else {
        assert(missing_pred(existing)(rnames[i]));
    }
}

/// A name from the sorted list has an input carrying it.
proof fn lemma_name_in_multiset(
    rnames: Seq<Seq<char>>,
    i: int,
    inputs: Seq<MaterializeInputView>,
)
    requires
        0 <= i < rnames.len(),
        rnames.to_multiset() == input_names(inputs).to_multiset(),
    ensures
        exists|j: int|
            0 <= j < inputs.len() && (#[trigger] inputs[j]).filename == rnames[i],
        rnames.take(i + 1) == rnames.take(i).push(rnames[i]),
{
    broadcast use vstd::seq_lib::group_to_multiset_ensures;

    let n = rnames[i];
    assert(rnames.to_multiset().contains(n));
    assert(input_names(inputs).to_multiset().contains(n));
    assert(input_names(inputs).contains(n));
    let j = choose|j: int| 0 <= j < input_names(inputs).len() && input_names(inputs)[j] == n;
    assert(inputs[j].filename == n);
    assert(rnames.take(i + 1) =~= rnames.take(i).push(rnames[i]));
}

/// Running the download flow twice with identical inputs is idempotent: the
/// first run leaves every input filename present in the output directory, and
/// a second run over that directory skips everything and writes nothing.
pub proof fn lemma_download_idempotent(
    names: Seq<Seq<char>>,
    inputs: Seq<MaterializeInputView>,
    existing: Seq<Seq<char>>,
)
    ensures
        forall|i: int|
            0 <= i < names.len() ==> (existing + names.filter(missing_pred(existing))).contains(
                #[trigger] names[i],
            ),
        forall|i: int|
            0 <= i < names.len() ==> (#[trigger] download_results(
                names,
                existing + names.filter(missing_pred(existing)),
            )[i]).outcome == Outcome::SkippedExisting,
        download_writes(names, inputs, existing + names.filter(missing_pred(existing))).len()
            == 0,
{
    let written = names.filter(missing_pred(existing));
    let after = existing + written;
    assert forall|i: int| 0 <= i < names.len() implies after.contains(#[trigger] names[i]) by {
        if existing.contains(names[i]) {
            let j = choose|j: int| 0 <= j < existing.len() && existing[j] == names[i];
            assert(after[j] == names[i]);
        } else {
            assert(missing_pred(existing)(names[i]));
            names.lemma_filter_contains(missing_pred(existing), i);
            let j = choose|j: int| 0 <= j < written.len() && written[j] == names[i];
            assert(after[existing.len() + j] == names[i]);
        }
    }
    assert forall|i: int| 0 <= i < names.len() implies (#[trigger] download_results(
        names,
        after,
    )[i]).outcome == Outcome::SkippedExisting by {
        assert(after.contains(names[i]));
    }
    let still_missing = names.filter(missing_pred(after));
    assert forall|i: int| 0 <= i < names.len() implies !missing_pred(after)(#[trigger] names[i]) by {
        assert(after.contains(names[i]));
    }
    names.lemma_all_neg_filter_empty(missing_pred(after));
    assert(still_missing.len() == 0);
}

/// The reported filename list is determined by the set of artifacts alone:
/// two sorted reports over the same filenames, whatever order preparation
/// settled in, are the same list.
pub proof fn lemma_report_deterministic(n1: Seq<Seq<char>>, n2: Seq<Seq<char>>)
    requires
        sorted_by(n1, lex_leq()),
        sorted_by(n2, lex_leq()),
        n1.to_multiset() == n2.to_multiset(),
    ensures
        n1 == n2,
{
    crate::strutil::lemma_lex_leq_total_ordering();
    lemma_sorted_unique(n1, n2, lex_leq());
}

} // verus!
