//! Naming and caption text of exported datasets.
use vstd::prelude::*;
use crate::rating::ImageRating;
use crate::paths::last_dot;
use crate::text::{chars_of, string_of, concat, trim, trim_str, zero_padded, push_zero_padded, same_str, decimal, push_decimal};

verus! {

#[derive(Debug)]
pub struct KohyaFolderOptions {
    pub repeat_count: u32,
    pub concept_name: String,
}

#[derive(Debug)]
pub struct ExportOptions {
    /// The folder exported from.
    pub source_path: String,
    /// The destination folder or ZIP file.
    pub dest_path: String,
    pub as_zip: bool,
    /// Export only images that have a caption.
    pub only_captioned: bool,
    /// Export only these relative paths, where given.
    pub relative_paths: Option<Vec<String>>,
    /// Put in front of every caption.
    pub trigger_word: Option<String>,
    /// Name the files 0001, 0002, ...
    pub sequential_naming: bool,
    /// "txt" for one caption file per image, "metadata" for one metadata.json.
    pub caption_format: Option<String>,
    /// Export into a `<repeats>_<concept>` folder.
    pub kohya_folder: Option<KohyaFolderOptions>,
}

#[derive(Debug)]
pub struct ExportResult {
    pub success: bool,
    pub exported_count: usize,
    pub skipped_count: usize,
    pub error: Option<String>,
    pub output_path: String,
}

#[derive(Debug)]
pub struct ExportByRatingOptions {
    pub source_path: String,
    /// The parent of the good/, bad/ and needs_edit/ folders.
    pub dest_path: String,
    pub trigger_word: Option<String>,
    pub sequential_naming: bool,
}

/// How a dataset is written out.
#[derive(Clone, Copy, Debug, PartialEq, Eq, Structural)]
pub enum ExportMode {
    Zip,
    FolderWithMetadata,
    Folder,
}

/// Chooses how to export: a ZIP can hold neither a metadata.json nor a
/// repeat folder.
pub fn export_mode(as_zip: bool, caption_format: &Option<String>, kohya: bool) -> (r: Result<ExportMode, String>)
    ensures
        ({
            let metadata = caption_format matches Some(f) && f@ == "metadata"@;
            &&& (as_zip && metadata) ==> (r matches Err(e) && e@ == "ZIP + metadata.json format not supported; use folder export"@)
            &&& (as_zip && !metadata && kohya) ==> (r matches Err(e) && e@ == "Kohya folder structure requires folder export, not ZIP"@)
            &&& (as_zip && !metadata && !kohya) ==> r == Ok::<ExportMode, String>(ExportMode::Zip)
            &&& (!as_zip && metadata) ==> r == Ok::<ExportMode, String>(ExportMode::FolderWithMetadata)
            &&& (!as_zip && !metadata) ==> r == Ok::<ExportMode, String>(ExportMode::Folder)
        }),
{
    let metadata = match caption_format {
        Some(f) => same_str(f.as_str(), "metadata"),
        None => false,
    };
    if as_zip {
        if metadata {
            Err("ZIP + metadata.json format not supported; use folder export".to_string())
        } else if kohya {
            Err("Kohya folder structure requires folder export, not ZIP".to_string())
        } else {
            Ok(ExportMode::Zip)
        }
    } else if metadata {
        Ok(ExportMode::FolderWithMetadata)
    } else {
        Ok(ExportMode::Folder)
    }
}

/// The exported name of the `index`-th image (from 0): its number from 1,
/// four digits, with its extension (`png` where it has none); else its own
/// file name (`image.png` where it has none).
pub open spec fn export_name(index: nat, ext: Option<Seq<char>>, sequential: bool, file_name: Option<Seq<char>>) -> Seq<char> {
    if sequential {
        zero_padded(index + 1, 4) + "."@ + match ext {
            Some(e) => e,
            None => "png"@,
        }
    } else {
        match file_name {
            Some(n) => n,
            None => "image.png"@,
        }
    }
}

pub fn export_file_name(index: usize, ext: Option<&str>, sequential: bool, file_name: Option<&str>) -> (r: String)
    ensures
        r@ == export_name(
            index as nat,
            match ext {
                Some(e) => Some(e@),
                None => None,
            },
            sequential,
            match file_name {
                Some(n) => Some(n@),
                None => None,
            },
        ),
{
    if sequential {
        let mut v: Vec<char> = Vec::new();
        push_zero_padded(&mut v, index as u128 + 1, 4);
        let head = concat(string_of(v.as_slice()).as_str(), ".");
        match ext {
            Some(e) => concat(head.as_str(), e),
            None => concat(head.as_str(), "png"),
        }
    } else {
        match file_name {
            Some(n) => n.to_string(),
            None => "image.png".to_string(),
        }
    }
}

/// The caption file beside an exported image: its name up to the last dot,
/// with `.txt`.
pub open spec fn caption_name(name: Seq<char>) -> Seq<char> {
    let d = last_dot(name);
    (if d >= 0 { name.subrange(0, d) } else { name }) + ".txt"@
}

pub fn caption_file_name(name: &str) -> (r: String)
    ensures
        r@ == caption_name(name@),
{
    let c = chars_of(name);
    let base = match crate::paths::last_dot_of(&c, 0) {
        Some(d) => {
            assert(c@.subrange(0, c@.len() as int) =~= c@);
            string_of(crate::paths::copy_range(&c, 0, d).as_slice())
        },
        None => {
            assert(c@.subrange(0, c@.len() as int) =~= c@);
            name.to_string()
        },
    };
    concat(base.as_str(), ".txt")
}

/// The exported caption: the trigger word (trimmed) first where one is set,
/// then the caption trimmed.
pub open spec fn exported_caption(content: Seq<char>, trigger: Option<Seq<char>>) -> Seq<char> {
    match trigger {
        Some(t) => if t.len() > 0 {
            trim(t) + ", "@ + trim(content)
        } else {
            trim(content)
        },
        None => trim(content),
    }
}

pub fn export_caption(content: &str, trigger: Option<&str>) -> (r: String)
    ensures
        r@ == exported_caption(
            content@,
            match trigger {
                Some(t) => Some(t@),
                None => None,
            },
        ),
{
    match trigger {
        Some(t) => {
            if t.unicode_len() > 0 {
                let a = concat(trim_str(t).as_str(), ", ");
                concat(a.as_str(), trim_str(content).as_str())
            } else {
                trim_str(content)
            }
        },
        None => trim_str(content),
    }
}

/// The repeat folder `<repeats>_<concept>`: slashes in the concept become
/// `_`, it is trimmed, and an empty one is `concept`.
pub open spec fn kohya_name(repeat: u32, concept: Seq<char>) -> Seq<char> {
    let n = trim(concept.map_values(|c: char| if c == '/' || c == '\\' { '_' } else { c }));
    decimal(repeat as nat) + "_"@ + if n.len() == 0 {
        "concept"@
    } else {
        n
    }
}

pub fn kohya_folder_name(repeat: u32, concept: &str) -> (r: String)
    ensures
        r@ == kohya_name(repeat, concept@),
{
    let c = chars_of(concept);
    let mut v: Vec<char> = Vec::new();
    let mut i: usize = 0;
    while i < c.len()
        invariant
            i <= c@.len(),
            c@ == concept@,
            v@ == c@.subrange(0, i as int).map_values(|x: char| if x == '/' || x == '\\' { '_' } else { x }),
        decreases c@.len() - i,
    {
        let x = c[i];
        v.push(if x == '/' || x == '\\' { '_' } else { x });
        i += 1;
        assert(v@ =~= c@.subrange(0, i as int).map_values(|x: char| if x == '/' || x == '\\' { '_' } else { x }));
    }
    assert(c@.subrange(0, i as int) =~= c@);
    let t = crate::text::trim_chars(v.as_slice());
    let mut out: Vec<char> = Vec::new();
    push_decimal(&mut out, repeat as u128);
    out.push('_');
    let tail = if t.len() == 0 { chars_of("concept") } else { t };
    crate::paths::append_chars(&mut out, &tail);
    proof { reveal_strlit("_"); }
    assert(out@ =~= kohya_name(repeat, concept@));
    string_of(out.as_slice())
}

/// The subfolder of an export by rating; unrated images are not exported.
pub fn rating_folder(rating: ImageRating) -> (r: Option<&'static str>)
    ensures
        rating == ImageRating::Unrated ==> r is None,
        rating != ImageRating::Unrated ==> (r matches Some(s) && s@ == crate::rating::rating_name(rating)),
{
    match rating {
        ImageRating::Good => Some("good"),
        ImageRating::Bad => Some("bad"),
        ImageRating::NeedsEdit => Some("needs_edit"),
        ImageRating::Unrated => None,
    }
}

/// Whether an image goes into an export: where a list of wanted relative
/// paths is given (back slashes read as forward ones), its relative path is
/// on it (`None`, outside the source folder, is on no list); and where only
/// captioned images are wanted, it has a caption.
pub open spec fn selected(relative: Option<Seq<char>>, wanted: Option<Seq<Seq<char>>>, only_captioned: bool, has_caption: bool) -> bool {
    &&& match wanted {
        Some(w) => match relative {
            Some(r) => wanted_has(w, r),
            None => false,
        },
        None => true,
    }
    &&& (only_captioned ==> has_caption)
}

/// Some wanted path, back slashes read as forward ones, is `r`.
pub open spec fn wanted_has(w: Seq<Seq<char>>, r: Seq<char>) -> bool {
    exists|i: int| 0 <= i < w.len() && crate::paths::replace_char(#[trigger] w[i], '\\', '/') == r
}

pub fn export_selected(relative: Option<&str>, wanted: Option<&Vec<String>>, only_captioned: bool, has_caption: bool) -> (r: bool)
    ensures
        r == selected(
            match relative {
                Some(x) => Some(x@),
                None => None,
            },
            match wanted {
                Some(w) => Some(crate::text::views(w@)),
                None => None,
            },
            only_captioned,
            has_caption,
        ),
{
    if only_captioned && !has_caption {
        return false;
    }
    match wanted {
        None => true,
        Some(w) => match relative {
            None => false,
            Some(rel) => {
                let rc = chars_of(rel);
                let mut i: usize = 0;
                while i < w.len()
                    invariant
                        i <= w@.len(),
                        rc@ == rel@,
                        only_captioned ==> has_caption,
                        wanted == Some(w),
                        relative == Some(rel),
                        forall|j: int| 0 <= j < i ==> crate::paths::replace_char(#[trigger] crate::text::views(w@)[j], '\\', '/') != rel@,
                    decreases w@.len() - i,
                {
                    let c = chars_of(w[i].as_str());
                    let mut n: Vec<char> = Vec::new();
                    let mut k: usize = 0;
                    while k < c.len()
                        invariant
                            k <= c@.len(),
                            n@ == crate::paths::replace_char(c@.subrange(0, k as int), '\\', '/'),
                        decreases c@.len() - k,
                    {
                        let x = c[k];
                        n.push(if x == '\\' { '/' } else { x });
                        assert(c@.subrange(0, k + 1) =~= c@.subrange(0, k as int).push(x));
                        k += 1;
                        assert(n@ =~= crate::paths::replace_char(c@.subrange(0, k as int), '\\', '/'));
                    }
                    assert(c@.subrange(0, k as int) =~= c@);
                    assert(c@ == crate::text::views(w@)[i as int]);
                    if crate::text::same_chars(n.as_slice(), rc.as_slice()) {
                        assert(crate::paths::replace_char(crate::text::views(w@)[i as int], '\\', '/') == rel@);
                        assert(wanted_has(crate::text::views(w@), rel@));
                        return true;
                    }
                    i += 1;
                }
                false
            },
        },
    }
}

} // verus!
