//! The plan by which a project directory is copied into its sandbox.
//!
//! Only source files, the manifest and the lock file are copied. A directory
//! of the sandbox is made right before the first file is copied into it, so a
//! directory that holds no such file is never made.

use vstd::prelude::*;
use vstd::string::*;
use crate::paths::{is_under, join_path, joined, translate_path, translated};
use crate::text::{ends_with, str_ends_with, str_eq, text_bytes};

verus! {

/// One entry of a directory, as the disk reports it.
#[derive(Debug, Clone, PartialEq, Eq)]
pub struct DirEntryInfo {
    pub name: String,
    pub is_dir: bool,
}

/// One step of the copy.
#[derive(Debug, Clone, PartialEq, Eq)]
pub enum MirrorStep {
    /// Make the directory `path` and the directories above it.
    CreateDir { path: String },
    /// Copy the file `from` to `to`.
    CopyFile { from: String, to: String },
    /// Go on with the directory `from`, whose copy is `to`.
    Descend { from: String, to: String },
}

/// A step, with its paths as bytes.
pub enum StepModel {
    CreateDir { path: Seq<u8> },
    CopyFile { from: Seq<u8>, to: Seq<u8> },
    Descend { from: Seq<u8>, to: Seq<u8> },
}

/// The model of a step.
pub open spec fn step_model(step: MirrorStep) -> StepModel {
    match step {
        MirrorStep::CreateDir { path } => StepModel::CreateDir { path: text_bytes(path@) },
        MirrorStep::CopyFile { from, to } => StepModel::CopyFile {
            from: text_bytes(from@),
            to: text_bytes(to@),
        },
        MirrorStep::Descend { from, to } => StepModel::Descend {
            from: text_bytes(from@),
            to: text_bytes(to@),
        },
    }
}

/// The models of a sequence of steps.
pub open spec fn step_models(steps: Seq<MirrorStep>) -> Seq<StepModel> {
    steps.map_values(|step: MirrorStep| step_model(step))
}

/// Whether a file of this name belongs in the sandbox: a source file, the
/// manifest or the lock file.
pub open spec fn is_mirrored_name(name: Seq<char>) -> bool {
    ||| ends_with(text_bytes(name), text_bytes(".rs"@))
    ||| name == "Cargo.toml"@
    ||| name == "Cargo.lock"@
}

/// Whether an entry is a file that belongs in the sandbox.
pub open spec fn is_mirrored_file(entry: DirEntryInfo) -> bool {
    !entry.is_dir && is_mirrored_name(entry.name@)
}

/// Whether one of the first `k` entries is a file that belongs in the sandbox.
pub open spec fn has_mirrored_file(entries: Seq<DirEntryInfo>, k: int) -> bool
    decreases k,
{
    k > 0 && (is_mirrored_file(entries[k - 1]) || has_mirrored_file(entries, k - 1))
}

/// The steps for one entry of the directory `source`, whose copy is `target`.
/// `created` tells whether `target` was made for an earlier entry.
pub open spec fn entry_steps(
    entry: DirEntryInfo,
    created: bool,
    source: Seq<u8>,
    target: Seq<u8>,
) -> Seq<StepModel> {
    let from = joined(source, text_bytes(entry.name@));
    let to = joined(target, text_bytes(entry.name@));
    if entry.is_dir {
        seq![StepModel::Descend { from, to }]
    } else if is_mirrored_name(entry.name@) {
        if created {
            seq![StepModel::CopyFile { from, to }]
        } else {
            seq![StepModel::CreateDir { path: target }, StepModel::CopyFile { from, to }]
        }
    } else {
        Seq::<StepModel>::empty()
    }
}

/// The steps for the first `k` entries of the directory `source`, whose copy
/// is `target`.
pub open spec fn mirror_steps(
    entries: Seq<DirEntryInfo>,
    source: Seq<u8>,
    target: Seq<u8>,
    k: int,
) -> Seq<StepModel>
    decreases k,
{
    if k <= 0 {
        Seq::<StepModel>::empty()
    } else {
        mirror_steps(entries, source, target, k - 1) + entry_steps(
            entries[k - 1],
            has_mirrored_file(entries, k - 1),
            source,
            target,
        )
    }
}

/// Whether a file of this name belongs in the sandbox.
pub fn is_mirrored(name: &str) -> (r: bool)
    ensures
        r == is_mirrored_name(name@),
{
    str_ends_with(name, ".rs") || str_eq(name, "Cargo.toml") || str_eq(name, "Cargo.lock")
}

/// The steps that copy the directory `source_dir`, which holds `entries`, to
/// `target_dir`: one to go on with each directory in it, and one to copy each
/// file that belongs in the sandbox, the first of them after `target_dir` was
/// made.
pub fn plan_mirror(entries: &[DirEntryInfo], source_dir: &str, target_dir: &str) -> (r: Vec<
    MirrorStep,
>)
    ensures
        step_models(r@) == mirror_steps(
            entries@,
            source_dir.spec_bytes(),
            target_dir.spec_bytes(),
            entries@.len() as int,
        ),
{
    let mut steps: Vec<MirrorStep> = Vec::new();
    let mut has_relevant_files = false;
    let n = entries.len();
    let mut i: usize = 0;
    assert(step_models(steps@) =~= Seq::<StepModel>::empty());
    while i < n
        invariant
            i <= n,
            n == entries@.len(),
            has_relevant_files == has_mirrored_file(entries@, i as int),
            step_models(steps@) == mirror_steps(
                entries@,
                source_dir.spec_bytes(),
                target_dir.spec_bytes(),
                i as int,
            ),
        decreases n - i,
    {
        let entry = &entries[i];
        let ghost before = steps@;
        let ghost added = entry_steps(
            *entry,
            has_relevant_files,
            source_dir.spec_bytes(),
            target_dir.spec_bytes(),
        );
        if entry.is_dir {
            steps.push(
                MirrorStep::Descend {
                    from: join_path(source_dir, entry.name.as_str()),
                    to: join_path(target_dir, entry.name.as_str()),
                },
            );
            assert(step_models(steps@) =~= step_models(before) + added);
        } else if is_mirrored(entry.name.as_str()) {
            if !has_relevant_files {
                steps.push(MirrorStep::CreateDir { path: target_dir.to_owned() });
                has_relevant_files = true;
            }
            steps.push(
                MirrorStep::CopyFile {
                    from: join_path(source_dir, entry.name.as_str()),
                    to: join_path(target_dir, entry.name.as_str()),
                },
            );
            assert(step_models(steps@) =~= step_models(before) + added);
        } else {
            assert(step_models(steps@) =~= step_models(before) + added);
        }
        i = i + 1;
    }
    steps
}

/// A directory of the sandbox is made only for a file that is copied into it:
/// the plan for a directory that holds no file of the sandbox only goes on
/// with the directories below it, and a step that makes a directory makes the
/// target and is followed by a copy into it.
pub proof fn lemma_directory_made_only_for_files(
    entries: Seq<DirEntryInfo>,
    source: Seq<u8>,
    target: Seq<u8>,
    k: int,
)
    requires
        0 <= k <= entries.len(),
    ensures
        !has_mirrored_file(entries, k) ==> forall|i: int|
            0 <= i < mirror_steps(entries, source, target, k).len() ==> #[trigger] mirror_steps(
                entries,
                source,
                target,
                k,
            )[i] is Descend,
        forall|i: int|
            0 <= i < mirror_steps(entries, source, target, k).len() && #[trigger] mirror_steps(
                entries,
                source,
                target,
                k,
            )[i] is CreateDir ==> {
                &&& mirror_steps(entries, source, target, k)[i]->path == target
                &&& i + 1 < mirror_steps(entries, source, target, k).len()
                &&& mirror_steps(entries, source, target, k)[i + 1] is CopyFile
            },
    decreases k,
{
    if k > 0 {
        lemma_directory_made_only_for_files(entries, source, target, k - 1);
        let prev = mirror_steps(entries, source, target, k - 1);
        let added = entry_steps(entries[k - 1], has_mirrored_file(entries, k - 1), source, target);
        let all = mirror_steps(entries, source, target, k);
        assert(all == prev + added);
        assert forall|i: int| 0 <= i < all.len() && #[trigger] all[i] is CreateDir implies {
            &&& all[i]->path == target
            &&& i + 1 < all.len()
            &&& all[i + 1] is CopyFile
        } by {
            if i < prev.len() {
                assert(all[i] == prev[i]);
                assert(all[i + 1] == prev[i + 1]);
            } else {
                assert(all[i] == added[i - prev.len()]);
                assert(all[i + 1] == added[i + 1 - prev.len()]);
            }
        }
        if !has_mirrored_file(entries, k) {
            assert forall|i: int| 0 <= i < all.len() implies #[trigger] all[i] is Descend by {
                if i < prev.len() {
                    assert(all[i] == prev[i]);
                } else {
                    assert(all[i] == added[i - prev.len()]);
                }
            }
        }
    }
}

/// One directory of a tree, with what it holds.
#[derive(Debug, PartialEq, Eq)]
pub struct DirListing {
    pub dir: String,
    pub entries: Vec<DirEntryInfo>,
}

/// The entries among the first `k` that are no directories, in order.
pub open spec fn files_among(entries: Seq<DirEntryInfo>, k: int) -> Seq<DirEntryInfo>
    decreases k,
{
    if k <= 0 {
        Seq::<DirEntryInfo>::empty()
    } else if entries[k - 1].is_dir {
        files_among(entries, k - 1)
    } else {
        files_among(entries, k - 1).push(entries[k - 1])
    }
}

/// The entries of a directory that are no directories, in order.
pub open spec fn files_in(listing: DirListing) -> Seq<DirEntryInfo> {
    files_among(listing.entries@, listing.entries@.len() as int)
}

/// The steps for one directory of the tree under `from`, whose copy lies at
/// the same place under `to`: the copies of its files, after the step that
/// makes its copy. A directory that does not lie under `from` has no steps.
pub open spec fn listing_steps(listing: DirListing, from: Seq<u8>, to: Seq<u8>) -> Seq<StepModel> {
    if is_under(text_bytes(listing.dir@), from) {
        mirror_steps(
            files_in(listing),
            text_bytes(listing.dir@),
            translated(text_bytes(listing.dir@), from, to),
            files_in(listing).len() as int,
        )
    } else {
        Seq::<StepModel>::empty()
    }
}

/// The steps for the first `k` directories of a tree.
pub open spec fn tree_steps(listings: Seq<DirListing>, from: Seq<u8>, to: Seq<u8>, k: int) -> Seq<
    StepModel,
>
    decreases k,
{
    if k <= 0 {
        Seq::<StepModel>::empty()
    } else {
        tree_steps(listings, from, to, k - 1) + listing_steps(listings[k - 1], from, to)
    }
}

/// Whether `path` is the copy of the directory of `listing`, and that
/// directory holds a file that belongs in the sandbox.
pub open spec fn made_for(listing: DirListing, from: Seq<u8>, to: Seq<u8>, path: Seq<u8>) -> bool {
    &&& is_under(text_bytes(listing.dir@), from)
    &&& path == translated(text_bytes(listing.dir@), from, to)
    &&& has_mirrored_file(listing.entries@, listing.entries@.len() as int)
}

/// The entries of a directory that are no directories, in order.
pub fn files_of(entries: &[DirEntryInfo]) -> (r: Vec<DirEntryInfo>)
    ensures
        r@ == files_among(entries@, entries@.len() as int),
{
    let mut files: Vec<DirEntryInfo> = Vec::new();
    let n = entries.len();
    let mut i: usize = 0;
    while i < n
        invariant
            i <= n,
            n == entries@.len(),
            files@ == files_among(entries@, i as int),
        decreases n - i,
    {
        let entry = &entries[i];
        if !entry.is_dir {
            files.push(DirEntryInfo { name: entry.name.clone(), is_dir: false });
        }
        i = i + 1;
    }
    files
}

/// The steps that copy a whole tree from under `source_root` to under
/// `target_root`. `listings` holds the directories of the tree, each with its
/// entries. For each directory that holds a file of the sandbox, its copy is
/// made and the files are copied; no step is planned for any other directory.
pub fn plan_tree(listings: &[DirListing], source_root: &str, target_root: &str) -> (r: Vec<
    MirrorStep,
>)
    ensures
        step_models(r@) == tree_steps(
            listings@,
            source_root.spec_bytes(),
            target_root.spec_bytes(),
            listings@.len() as int,
        ),
{
    let mut steps: Vec<MirrorStep> = Vec::new();
    let n = listings.len();
    let mut i: usize = 0;
    assert(step_models(steps@) =~= Seq::<StepModel>::empty());
    while i < n
        invariant
            i <= n,
            n == listings@.len(),
            step_models(steps@) == tree_steps(
                listings@,
                source_root.spec_bytes(),
                target_root.spec_bytes(),
                i as int,
            ),
        decreases n - i,
    {
        let listing = &listings[i];
        match translate_path(listing.dir.as_str(), source_root, target_root) {
            Some(target) => {
                let files = files_of(listing.entries.as_slice());
                let mut part = plan_mirror(files.as_slice(), listing.dir.as_str(), target.as_str());
                let ghost before = steps@;
                let ghost added = part@;
                steps.append(&mut part);
                assert(step_models(steps@) =~= step_models(before) + step_models(added));
            },
            None => {
                assert(step_models(steps@) =~= step_models(steps@) + Seq::<StepModel>::empty());
            },
        }
        i = i + 1;
    }
    steps
}

/// The files of a directory hold a file of the sandbox exactly where its
/// entries do.
pub proof fn lemma_files_among(entries: Seq<DirEntryInfo>, k: int)
    requires
        0 <= k <= entries.len(),
    ensures
        forall|i: int|
            0 <= i < files_among(entries, k).len() ==> !(#[trigger] files_among(entries, k)[i]).is_dir,
        has_mirrored_file(files_among(entries, k), files_among(entries, k).len() as int)
            == has_mirrored_file(entries, k),
    decreases k,
{
    if k > 0 {
        lemma_files_among(entries, k - 1);
        let prev = files_among(entries, k - 1);
        if !entries[k - 1].is_dir {
            let all = prev.push(entries[k - 1]);
            lemma_has_mirrored_file_prefix(all, prev, prev.len() as int);
        }
    }
}

/// Whether one of the first `k` entries is a file of the sandbox depends on
/// those entries alone.
pub proof fn lemma_has_mirrored_file_prefix(a: Seq<DirEntryInfo>, b: Seq<DirEntryInfo>, k: int)
    requires
        0 <= k <= a.len(),
        k <= b.len(),
        forall|i: int| 0 <= i < k ==> a[i] == b[i],
    ensures
        has_mirrored_file(a, k) == has_mirrored_file(b, k),
    decreases k,
{
    if k > 0 {
        lemma_has_mirrored_file_prefix(a, b, k - 1);
    }
}

/// The plan for entries that are no directories never goes on with another
/// directory.
pub proof fn lemma_files_never_descend(
    entries: Seq<DirEntryInfo>,
    source: Seq<u8>,
    target: Seq<u8>,
    k: int,
)
    requires
        0 <= k <= entries.len(),
        forall|i: int| 0 <= i < entries.len() ==> !(#[trigger] entries[i]).is_dir,
    ensures
        forall|i: int|
            0 <= i < mirror_steps(entries, source, target, k).len() ==> !(#[trigger] mirror_steps(
                entries,
                source,
                target,
                k,
            )[i] is Descend),
    decreases k,
{
    if k > 0 {
        lemma_files_never_descend(entries, source, target, k - 1);
        let prev = mirror_steps(entries, source, target, k - 1);
        let added = entry_steps(entries[k - 1], has_mirrored_file(entries, k - 1), source, target);
        let all = mirror_steps(entries, source, target, k);
        assert forall|i: int| 0 <= i < all.len() implies !(#[trigger] all[i] is Descend) by {
            if i < prev.len() {
                assert(all[i] == prev[i]);
            } else {
                assert(all[i] == added[i - prev.len()]);
            }
        }
    }
}

/// In the plan for a whole tree, every directory that is made is the copy of
/// a directory of the tree that itself holds a file of the sandbox, and is
/// followed by a copy into it. The plan holds no other kind of step: for a
/// directory without such a file nothing is made.
pub proof fn lemma_tree_makes_directories_only_for_files(
    listings: Seq<DirListing>,
    from: Seq<u8>,
    to: Seq<u8>,
    k: int,
)
    requires
        0 <= k <= listings.len(),
    ensures
        forall|i: int|
            0 <= i < tree_steps(listings, from, to, k).len() ==> !(#[trigger] tree_steps(
                listings,
                from,
                to,
                k,
            )[i] is Descend),
        forall|i: int|
            0 <= i < tree_steps(listings, from, to, k).len() && #[trigger] tree_steps(
                listings,
                from,
                to,
                k,
            )[i] is CreateDir ==> {
                &&& exists|j: int|
                    0 <= j < k && #[trigger] made_for(
                        listings[j],
                        from,
                        to,
                        tree_steps(listings, from, to, k)[i]->path,
                    )
                &&& is_under(tree_steps(listings, from, to, k)[i]->path, to)
                &&& i + 1 < tree_steps(listings, from, to, k).len()
                &&& tree_steps(listings, from, to, k)[i + 1] is CopyFile
            },
    decreases k,
{
    if k > 0 {
        lemma_tree_makes_directories_only_for_files(listings, from, to, k - 1);
        let prev = tree_steps(listings, from, to, k - 1);
        let listing = listings[k - 1];
        let added = listing_steps(listing, from, to);
        let all = tree_steps(listings, from, to, k);
        assert(all == prev + added);
        let dir = text_bytes(listing.dir@);
        let files = files_in(listing);
        if is_under(dir, from) {
            lemma_files_among(listing.entries@, listing.entries@.len() as int);
            lemma_files_never_descend(files, dir, translated(dir, from, to), files.len() as int);
            lemma_directory_made_only_for_files(
                files,
                dir,
                translated(dir, from, to),
                files.len() as int,
            );
            crate::paths::lemma_translate_round_trip(dir, from, to);
        }
        assert forall|i: int| 0 <= i < all.len() implies !(#[trigger] all[i] is Descend) by {
            if i < prev.len() {
                assert(all[i] == prev[i]);
            } else {
                assert(all[i] == added[i - prev.len()]);
            }
        }
        assert forall|i: int| 0 <= i < all.len() && #[trigger] all[i] is CreateDir implies {
            &&& exists|j: int| 0 <= j < k && #[trigger] made_for(listings[j], from, to, all[i]->path)
            &&& is_under(all[i]->path, to)
            &&& i + 1 < all.len()
            &&& all[i + 1] is CopyFile
        } by {
            if i < prev.len() {
                assert(all[i] == prev[i]);
                assert(all[i + 1] == prev[i + 1]);
                let j = choose|j: int|
                    0 <= j < k - 1 && #[trigger] made_for(listings[j], from, to, prev[i]->path);
                assert(made_for(listings[j], from, to, all[i]->path));
            } else {
                assert(all[i] == added[i - prev.len()]);
                assert(all[i + 1] == added[i + 1 - prev.len()]);
                if !has_mirrored_file(files, files.len() as int) {
                    assert(added[i - prev.len()] is Descend);
                }
                assert(made_for(listings[k - 1], from, to, all[i]->path));
            }
        }
    }
}

/// Whether the directory of `listing` holds a file that belongs in the
/// sandbox and lies at or below the directory `source_dir` of the tree under
/// `from`.
pub open spec fn holds_file_below(listing: DirListing, from: Seq<u8>, source_dir: Seq<u8>) -> bool {
    &&& is_under(text_bytes(listing.dir@), from)
    &&& is_under(text_bytes(listing.dir@), source_dir)
    &&& has_mirrored_file(listing.entries@, listing.entries@.len() as int)
}

/// A step that makes a directory makes the directories above it too. Each
/// directory `made` that comes to be in the sandbox in this way stands for a
/// directory of the tree that holds, at some depth, a file that belongs in the
/// sandbox: no directory is made for a part of the tree without such a file.
pub proof fn lemma_made_directories_hold_files(
    listings: Seq<DirListing>,
    from: Seq<u8>,
    to: Seq<u8>,
    k: int,
    i: int,
    made: Seq<u8>,
)
    requires
        0 <= k <= listings.len(),
        0 <= i < tree_steps(listings, from, to, k).len(),
        tree_steps(listings, from, to, k)[i] is CreateDir,
        is_under(made, to),
        is_under(tree_steps(listings, from, to, k)[i]->path, made),
    ensures
        exists|j: int|
            0 <= j < k && #[trigger] holds_file_below(
                listings[j],
                from,
                translated(made, to, from),
            ),
{
    lemma_tree_makes_directories_only_for_files(listings, from, to, k);
    let path = tree_steps(listings, from, to, k)[i]->path;
    let j = choose|j: int| 0 <= j < k && #[trigger] made_for(listings[j], from, to, path);
    let dir = text_bytes(listings[j].dir@);
    crate::paths::lemma_translate_round_trip(dir, from, to);
    crate::paths::lemma_translate_keeps_under(path, made, to, from);
    assert(holds_file_below(listings[j], from, translated(made, to, from)));
}

} // verus!
