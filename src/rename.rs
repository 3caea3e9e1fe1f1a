//! Renaming a list of images (and their caption sidecars) to
//! `<prefix>_<index>.<ext>`. The file system work is the caller's; this
//! module decides, item by item, what to do and what the outcome is, and keeps
//! the tally: the index advances once per input, whatever happens to it.
use vstd::prelude::*;
use crate::paths::{extension, file_name, name_start, extension_of, copy_range, append_chars};
use crate::store::{PathKeyedStore, pair_views, migrated};
use crate::text::{chars_of, string_of, trim, trim_str, zero_padded, push_zero_padded, concat};

verus! {

#[derive(Debug)]
pub struct BatchRenamePayload {
    pub root_path: String,
    /// Relative paths of the images to rename, from the project root.
    pub relative_paths: Vec<String>,
    /// Prefix of the new names (`img` gives `img_0001.png`).
    pub prefix: String,
    /// Number of the first input.
    pub start_index: u32,
    /// Digits of the number, zero-padded; taken within 1 to 12.
    pub zero_pad: u32,
}

#[derive(Debug)]
pub struct BatchRenameResult {
    pub success: bool,
    pub renamed_count: u32,
    pub errors: Vec<String>,
}

#[derive(Debug)]
pub struct BatchRenameProgress {
    pub current: u32,
    pub total: u32,
    pub current_file: String,
}

/// What the caller found out about an input before touching it.
pub enum RenameProbe {
    /// No regular file at that path.
    Missing,
    /// Resolving the path failed, with the system's message.
    Unresolvable(String),
    /// The resolved path lies outside the project root.
    OutsideRoot,
    /// A regular file inside the project root.
    Inside,
}

/// What to do with one input.
pub enum RenamePlan {
    /// Nothing to move; the item failed with this message.
    Fail(String),
    /// The file already has its new name.
    Unchanged,
    /// Move the file to `new_name` in its directory.
    Move { new_name: String, new_relative: String },
}

/// What happened when the caller carried out a `Move`.
pub enum MoveOutcome {
    /// A file already has the new name; nothing was moved.
    TargetExists,
    /// Moving the image failed, with the system's message.
    MoveFailed(String),
    /// The caption's new name was taken; the image was moved back.
    CaptionTargetExists,
    /// Moving the caption failed; the image was moved back.
    CaptionMoveFailed,
    /// The image, and its caption if any, were moved.
    Moved,
}

/// The next step for the caption sidecar once the image has been moved.
#[derive(Clone, Copy, Debug, PartialEq, Eq, Structural)]
pub enum CaptionStep {
    /// The image has no caption: the item is done.
    NoCaption,
    /// Move the caption to the new name.
    MoveCaption,
    /// The caption's new name is taken: move the image back.
    RollBack,
}

/// How one input ended.
pub enum ItemResult {
    Failed(String),
    Unchanged,
    Renamed(String),
}

/// The padding width actually used: `zero_pad` taken within 1 to 12.
pub open spec fn pad_width(zero_pad: u32) -> nat {
    if zero_pad < 1 {
        1
    } else if zero_pad > 12 {
        12
    } else {
        zero_pad as nat
    }
}

/// The new file name for number `n`.
pub open spec fn new_file_name(prefix: Seq<char>, n: nat, width: nat, ext: Seq<char>) -> Seq<char> {
    prefix + seq!['_'] + zero_padded(n, width) + seq!['.'] + ext
}

/// The extension a renamed file keeps: its own, or `png` where it has none.
pub open spec fn kept_extension(rel: Seq<char>) -> Seq<char> {
    match extension(rel) {
        Some(e) => e,
        None => "png"@,
    }
}

/// `rel` with its file name replaced by `name`.
pub open spec fn sibling(rel: Seq<char>, name: Seq<char>) -> Seq<char> {
    rel.subrange(0, name_start(rel) as int) + name
}

pub open spec fn plan_spec(prefix: Seq<char>, n: nat, width: nat, rel: Seq<char>) -> (Seq<char>, Seq<char>) {
    let name = new_file_name(prefix, n, width, kept_extension(rel));
    (name, sibling(rel, name))
}

/// The caption step: roll back exactly when the image has a caption whose
/// new name is already taken.
pub fn caption_step(caption_exists: bool, caption_target_exists: bool) -> (r: CaptionStep)
    ensures
        !caption_exists ==> r == CaptionStep::NoCaption,
        caption_exists && caption_target_exists ==> r == CaptionStep::RollBack,
        caption_exists && !caption_target_exists ==> r == CaptionStep::MoveCaption,
{
    if !caption_exists {
        CaptionStep::NoCaption
    } else if caption_target_exists {
        CaptionStep::RollBack
    } else {
        CaptionStep::MoveCaption
    }
}

/// The outcome of a `Move` of `relative_path` to `new_name`.
pub fn move_result(relative_path: &str, new_name: &str, new_relative: String, outcome: MoveOutcome) -> (r: ItemResult)
    ensures
        outcome is Moved ==> (r matches ItemResult::Renamed(n) && n@ == new_relative@),
        outcome matches MoveOutcome::TargetExists ==> (r matches ItemResult::Failed(m) && m@ == "Target already exists: "@ + new_name@),
        outcome matches MoveOutcome::MoveFailed(e) ==> (r matches ItemResult::Failed(m) && m@ == "Rename "@ + relative_path@ + ": "@ + e@),
        outcome matches MoveOutcome::CaptionTargetExists ==> (r matches ItemResult::Failed(m) && m@ == "Caption target exists: "@ + new_name@),
        outcome matches MoveOutcome::CaptionMoveFailed ==> (r matches ItemResult::Failed(m) && m@ == "Failed to rename caption for: "@ + relative_path@),
{
    match outcome {
        MoveOutcome::TargetExists => ItemResult::Failed(concat("Target already exists: ", new_name)),
        MoveOutcome::MoveFailed(e) => {
            let a = concat("Rename ", relative_path);
            let b = concat(a.as_str(), ": ");
            ItemResult::Failed(concat(b.as_str(), e.as_str()))
        },
        MoveOutcome::CaptionTargetExists => ItemResult::Failed(concat("Caption target exists: ", new_name)),
        MoveOutcome::CaptionMoveFailed => ItemResult::Failed(concat("Failed to rename caption for: ", relative_path)),
        MoveOutcome::Moved => ItemResult::Renamed(new_relative),
    }
}

/// The state of a batch rename between items.
#[derive(Debug)]
pub struct RenameBatch {
    prefix: String,
    width: u32,
    start: u32,
    processed: usize,
    total: usize,
    renamed: usize,
    errors: Vec<String>,
    mappings: Vec<(String, String)>,
}

impl RenameBatch {
    pub closed spec fn prefix_spec(&self) -> Seq<char> { self.prefix@ }
    pub closed spec fn width_spec(&self) -> nat { self.width as nat }
    pub closed spec fn start_spec(&self) -> nat { self.start as nat }
    /// How many inputs have been recorded.
    pub closed spec fn processed_spec(&self) -> nat { self.processed as nat }
    pub closed spec fn total_spec(&self) -> nat { self.total as nat }
    pub closed spec fn renamed_spec(&self) -> nat { self.renamed as nat }
    pub closed spec fn errors_spec(&self) -> Seq<Seq<char>> { crate::text::views(self.errors@) }
    /// The (old, new) relative paths of the files renamed so far, in order.
    pub closed spec fn mappings_spec(&self) -> Seq<(Seq<char>, Seq<char>)> { pair_views(self.mappings@) }

    /// The number the next input gets.
    pub open spec fn next_number(&self) -> nat {
        self.start_spec() + self.processed_spec()
    }

    pub closed spec fn wf(&self) -> bool {
        &&& self.processed <= self.total
        &&& self.renamed <= self.processed
        &&& 1 <= self.width <= 12
    }

    /// Starts a batch for `total` inputs. An empty prefix (after trimming)
    /// rejects the whole batch before anything is done.
    pub fn start(prefix: &str, start_index: u32, zero_pad: u32, total: usize) -> (r: Result<Self, String>)
        ensures
            r is Err <==> trim(prefix@).len() == 0,
            r matches Err(m) ==> m@ == "Prefix cannot be empty"@,
            r matches Ok(b) ==> b.wf() && b.prefix_spec() == trim(prefix@) && b.width_spec() == pad_width(zero_pad)
                && b.start_spec() == start_index && b.processed_spec() == 0 && b.total_spec() == total
                && b.renamed_spec() == 0 && b.errors_spec().len() == 0 && b.mappings_spec().len() == 0,
    {
        let p = trim_str(prefix);
        if p.as_str().unicode_len() == 0 {
            return Err("Prefix cannot be empty".to_string());
        }
        let width: u32 = if zero_pad < 1 { 1 } else if zero_pad > 12 { 12 } else { zero_pad };
        let b = RenameBatch {
            prefix: p,
            width,
            start: start_index,
            processed: 0,
            total,
            renamed: 0,
            errors: Vec::new(),
            mappings: Vec::new(),
        };
        assert(b.errors_spec() =~= Seq::<Seq<char>>::empty());
        assert(b.mappings_spec() =~= Seq::<(Seq<char>, Seq<char>)>::empty());
        Ok(b)
    }

    /// Whether every input has been recorded.
    pub fn is_done(&self) -> (r: bool)
        ensures
            r == (self.processed_spec() >= self.total_spec()),
    {
        self.processed >= self.total
    }

    /// The progress notice sent before the next input is handled.
    pub fn progress(&self, current_file: &str) -> (r: BatchRenameProgress)
        requires
            self.wf(),
            self.processed_spec() < self.total_spec(),
        ensures
            r.current == ((self.processed_spec() + 1) as u32),
            r.total == (self.total_spec() as u32),
            r.current_file@ == current_file@,
    {
        BatchRenameProgress {
            current: (self.processed + 1) as u32,
            total: self.total as u32,
            current_file: current_file.to_string(),
        }
    }

    /// Decides what to do with the next input, `relative_path`, given what the
    /// caller found out about it.
    pub fn plan(&self, relative_path: &str, probe: RenameProbe) -> (r: RenamePlan)
        requires
            self.wf(),
        ensures
            probe is Missing ==> (r matches RenamePlan::Fail(m) && m@ == "Not found: "@ + relative_path@),
            probe matches RenameProbe::Unresolvable(e) ==> (r matches RenamePlan::Fail(m) && m@ == "Invalid path "@ + relative_path@ + ": "@ + e@),
            probe is OutsideRoot ==> (r matches RenamePlan::Fail(m) && m@ == "Path outside project: "@ + relative_path@),
            probe is Inside ==> ({
                let (name, new_rel) = plan_spec(self.prefix_spec(), self.next_number(), self.width_spec(), relative_path@);
                if name == file_name(relative_path@) {
                    r is Unchanged
                } else {
                    r matches RenamePlan::Move { new_name, new_relative } && new_name@ == name && new_relative@ == new_rel
                }
            }),
    {
        match probe {
            RenameProbe::Missing => RenamePlan::Fail(concat("Not found: ", relative_path)),
            RenameProbe::Unresolvable(e) => {
                let a = concat("Invalid path ", relative_path);
                let b = concat(a.as_str(), ": ");
                RenamePlan::Fail(concat(b.as_str(), e.as_str()))
            },
            RenameProbe::OutsideRoot => RenamePlan::Fail(concat("Path outside project: ", relative_path)),
            RenameProbe::Inside => {
                let ext = match extension_of(relative_path) {
                    Some(e) => e,
                    None => "png".to_string(),
                };
                let mut name: Vec<char> = chars_of(self.prefix.as_str());
                name.push('_');
                let n: u128 = self.start as u128 + self.processed as u128;
                push_zero_padded(&mut name, n, self.width);
                name.push('.');
                let e = chars_of(ext.as_str());
                append_chars(&mut name, &e);
                assert(name@ =~= new_file_name(self.prefix_spec(), self.next_number(), self.width_spec(), kept_extension(relative_path@)));
                let rel = chars_of(relative_path);
                let ns = crate::paths::name_start_of(&rel);
                let old_name = copy_range(&rel, ns, rel.len());
                if crate::text::same_chars(name.as_slice(), old_name.as_slice()) {
                    RenamePlan::Unchanged
                } else {
                    let mut new_rel = copy_range(&rel, 0, ns);
                    append_chars(&mut new_rel, &name);
                    RenamePlan::Move { new_name: string_of(name.as_slice()), new_relative: string_of(new_rel.as_slice()) }
                }
            },
        }
    }

    /// Records how the next input, `relative_path`, ended. The number
    /// advances once whatever the result; a failure adds exactly one error.
    pub fn record(&mut self, relative_path: &str, result: ItemResult)
        requires
            old(self).wf(),
            old(self).processed_spec() < old(self).total_spec(),
        ensures
            final(self).wf(),
            final(self).prefix_spec() == old(self).prefix_spec(),
            final(self).width_spec() == old(self).width_spec(),
            final(self).start_spec() == old(self).start_spec(),
            final(self).total_spec() == old(self).total_spec(),
            final(self).processed_spec() == old(self).processed_spec() + 1,
            final(self).next_number() == old(self).next_number() + 1,
            match result {
                ItemResult::Failed(m) => final(self).errors_spec() == old(self).errors_spec().push(m@)
                    && final(self).renamed_spec() == old(self).renamed_spec()
                    && final(self).mappings_spec() == old(self).mappings_spec(),
                ItemResult::Unchanged => final(self).errors_spec() == old(self).errors_spec()
                    && final(self).renamed_spec() == old(self).renamed_spec() + 1
                    && final(self).mappings_spec() == old(self).mappings_spec(),
                ItemResult::Renamed(n) => final(self).errors_spec() == old(self).errors_spec()
                    && final(self).renamed_spec() == old(self).renamed_spec() + 1
                    && final(self).mappings_spec() == old(self).mappings_spec().push((relative_path@, n@)),
            },
    {
        match result {
            ItemResult::Failed(m) => {
                self.errors.push(m);
                assert(self.errors_spec() =~= old(self).errors_spec().push(m@));
            },
            ItemResult::Unchanged => {
                self.renamed = self.renamed + 1;
            },
            ItemResult::Renamed(n) => {
                self.renamed = self.renamed + 1;
                self.mappings.push((relative_path.to_string(), n));
                assert(self.mappings_spec() =~= old(self).mappings_spec().push((relative_path@, n@)));
            },
        }
        self.processed = self.processed + 1;
    }

    /// The (old, new) relative paths of the renamed files.
    pub fn mappings(&self) -> (r: &Vec<(String, String)>)
        ensures
            pair_views(r@) == self.mappings_spec(),
    {
        &self.mappings
    }

    /// The result of the batch: a success exactly when no input failed.
    pub fn finish(self) -> (r: BatchRenameResult)
        ensures
            r.success == (self.errors_spec().len() == 0),
            r.renamed_count == (self.renamed_spec() as u32),
            crate::text::views(r.errors@) == self.errors_spec(),
    {
        let success = self.errors.len() == 0;
        BatchRenameResult { success, renamed_count: self.renamed as u32, errors: self.errors }
    }
}

/// One item's outcome does not reach the others: `record` keeps the prefix,
/// width and start and advances the count by one whatever the result, so two
/// batches that differ only in how earlier items ended plan every next item
/// alike.
pub proof fn lemma_items_independent(a: RenameBatch, b: RenameBatch, relative_path: Seq<char>)
    requires
        a.prefix_spec() == b.prefix_spec(),
        a.width_spec() == b.width_spec(),
        a.start_spec() == b.start_spec(),
        a.processed_spec() == b.processed_spec(),
    ensures
        plan_spec(a.prefix_spec(), a.next_number(), a.width_spec(), relative_path) == plan_spec(
            b.prefix_spec(),
            b.next_number(),
            b.width_spec(),
            relative_path,
        ),
{
}

/// Moves the entries of a store along with renamed files, as the renames of a
/// batch happened. A batch that renamed nothing leaves the store alone.
pub fn migrate_store(store: &mut PathKeyedStore, mappings: &Vec<(String, String)>)
    requires
        old(store).wf(),
    ensures
        final(store).wf(),
        mappings@.len() == 0 ==> final(store)@ == old(store)@,
        mappings@.len() > 0 ==> final(store)@ == migrated(old(store)@, pair_views(mappings@)),
{
    if mappings.len() > 0 {
        store.migrate_keys(mappings);
    }
}

} // verus!
