//! The integer side of cropping and resizing: clamping a crop to the image,
//! quarter turns, training sizes and output names.
use vstd::prelude::*;
use crate::text::{string_of, concat, decimal, push_decimal};

verus! {

#[derive(Debug)]
pub struct CropImagePayload {
    pub image_path: String,
    pub x: u32,
    pub y: u32,
    pub width: u32,
    pub height: u32,
    pub flip_x: bool,
    pub flip_y: bool,
    pub rotate_degrees: i32,
    /// Save to a new file beside the original instead of overwriting it.
    pub save_as_new: bool,
    /// Resize the result to this square size, for training.
    pub output_size: Option<u32>,
}

#[derive(Clone, Copy, Debug, PartialEq, Eq, Structural)]
pub enum BatchResizeMode {
    Resize,
    CenterCrop,
    Fit,
}

#[derive(Debug)]
pub struct BatchResizePayload {
    pub image_paths: Vec<String>,
    pub target_size: u32,
    pub mode: BatchResizeMode,
    pub output_folder: String,
}

#[derive(Debug)]
pub struct BatchResizeResult {
    pub processed_count: usize,
    pub skipped_count: usize,
    pub output_paths: Vec<String>,
    pub error: Option<String>,
}

#[derive(Debug)]
pub struct CropRect {
    pub x: u32,
    pub y: u32,
    pub width: u32,
    pub height: u32,
    /// Appended to the file stem: "_full", "_med", "_close".
    pub suffix: String,
}

#[derive(Debug)]
pub struct MultiCropPayload {
    pub image_path: String,
    pub crops: Vec<CropRect>,
    pub flip_x: bool,
    pub flip_y: bool,
    pub rotate_degrees: i32,
    pub output_size: Option<u32>,
}

pub open spec fn min(a: int, b: int) -> int {
    if a < b { a } else { b }
}

pub open spec fn sat_sub(a: int, b: int) -> int {
    if a > b { a - b } else { 0 }
}

/// The crop of (`x`, `y`, `width`, `height`) kept inside an image of
/// `img_w` by `img_h`: the corner moved in, the sides cut; `None` where
/// nothing is left.
pub open spec fn clamped_crop(x: u32, y: u32, width: u32, height: u32, img_w: u32, img_h: u32) -> Option<(u32, u32, u32, u32)> {
    let cx = min(x as int, sat_sub(img_w as int, 1));
    let cy = min(y as int, sat_sub(img_h as int, 1));
    let cw = min(width as int, sat_sub(img_w as int, cx));
    let ch = min(height as int, sat_sub(img_h as int, cy));
    if cw == 0 || ch == 0 {
        None
    } else {
        Some((cx as u32, cy as u32, cw as u32, ch as u32))
    }
}

pub fn clamp_crop(x: u32, y: u32, width: u32, height: u32, img_w: u32, img_h: u32) -> (r: Option<(u32, u32, u32, u32)>)
    ensures
        r == clamped_crop(x, y, width, height, img_w, img_h),
        r matches Some(c) ==> c.0 as int + c.2 as int <= img_w && c.1 as int + c.3 as int <= img_h,
{
    let cx = if x < img_w.saturating_sub(1) { x } else { img_w.saturating_sub(1) };
    let cy = if y < img_h.saturating_sub(1) { y } else { img_h.saturating_sub(1) };
    let cw = if width < img_w.saturating_sub(cx) { width } else { img_w.saturating_sub(cx) };
    let ch = if height < img_h.saturating_sub(cy) { height } else { img_h.saturating_sub(cy) };
    if cw == 0 || ch == 0 {
        None
    } else {
        Some((cx, cy, cw, ch))
    }
}

/// The quarter turns clockwise for a rotation of `degrees`, taken modulo 360.
pub open spec fn quarter_turns_of(degrees: int) -> int {
    (degrees % 360) / 90
}

pub fn quarter_turns(degrees: i32) -> (r: u32)
    ensures
        r == quarter_turns_of(degrees as int),
        r < 4,
{
    let a: i64 = if degrees < 0 { -(degrees as i64) } else { degrees as i64 };
    let m: i64 = a % 360;
    let e: i64 = if degrees < 0 && m != 0 { 360 - m } else { m };
    assert(e == (degrees as int) % 360) by {
        if degrees < 0 {
            assert((a as int) == -(degrees as int));
        }
    }
    (e / 90) as u32
}

/// A training size is kept when it is within 64 to 2048.
pub fn training_size(output_size: Option<u32>) -> (r: Option<u32>)
    ensures
        r == match output_size {
            Some(s) => if 64 <= s <= 2048 { Some(s) } else { None },
            None => None,
        },
{
    match output_size {
        Some(s) => if 64 <= s && s <= 2048 { Some(s) } else { None },
        None => None,
    }
}

/// The size of a batch resize, rejected outside 64 to 2048.
pub fn checked_target_size(target: u32) -> (r: Result<u32, String>)
    ensures
        64 <= target <= 2048 ==> r == Ok::<u32, String>(target),
        !(64 <= target <= 2048) ==> (r matches Err(e) && e@ == "Target size must be between 64 and 2048"@),
{
    if target < 64 || target > 2048 {
        Err("Target size must be between 64 and 2048".to_string())
    } else {
        Ok(target)
    }
}

/// The square cut from the middle of a `w` by `h` image for a center crop:
/// its corner and side, the shorter side of the image or `target` if smaller.
pub fn center_crop_box(w: u32, h: u32, target: u32) -> (r: (u32, u32, u32))
    ensures
        r.2 as int == min(min(w as int, h as int), target as int),
        r.0 as int == (w - r.2) / 2,
        r.1 as int == (h - r.2) / 2,
{
    let min_side = if w < h { w } else { h };
    let size = if min_side < target { min_side } else { target };
    ((w - size) / 2, (h - size) / 2, size)
}

/// The name of the `n`-th new crop of an image: `<stem>_<n>_crop.<ext>`.
pub fn crop_copy_name(stem: &str, n: u32, ext: &str) -> (r: String)
    ensures
        r@ == stem@ + "_"@ + decimal(n as nat) + "_crop."@ + ext@,
{
    let a = concat(stem, "_");
    let mut v: Vec<char> = Vec::new();
    push_decimal(&mut v, n as u128);
    let b = concat(a.as_str(), string_of(v.as_slice()).as_str());
    let c = concat(b.as_str(), "_crop.");
    concat(c.as_str(), ext)
}

/// The name of a crop with a suffix: `<stem><suffix>.<ext>`.
pub fn suffixed_name(stem: &str, suffix: &str, ext: &str) -> (r: String)
    ensures
        r@ == stem@ + suffix@ + "."@ + ext@,
{
    let a = concat(stem, suffix);
    let b = concat(a.as_str(), ".");
    concat(b.as_str(), ext)
}

} // verus!
