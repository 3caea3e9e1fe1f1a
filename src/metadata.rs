//! Ratings and crop statuses of a project, each a path-keyed store saved as
//! one JSON document under the project root.
use vstd::prelude::*;
use crate::rating::{ImageRating, rating_name, rating_named};
use crate::store::{
    PathKeyedStore, DocumentError, document_entries, json_field, json_document_text,
    put_value,
};
use crate::text::same_str;
use crate::paths::{normalize_key, store_key};

verus! {

/// The field of the ratings document that holds the ratings.
pub open spec fn ratings_field() -> Seq<char> {
    "ratings"@
}

/// The field of the crop-status document that holds the statuses.
pub open spec fn statuses_field() -> Seq<char> {
    "statuses"@
}

/// The crop status that means "no status", never stored.
pub open spec fn uncropped() -> Seq<char> {
    "uncropped"@
}

/// The ratings of a project: relative path to rating name.
#[derive(Debug)]
pub struct RatingsData {
    pub ratings: PathKeyedStore,
}

/// The crop statuses of a project: relative path to status.
#[derive(Debug)]
pub struct CropStatusData {
    pub statuses: PathKeyedStore,
}

#[derive(Debug)]
pub struct SetRatingPayload {
    pub root_path: String,
    pub relative_path: String,
    pub rating: String,
}

#[derive(Debug)]
pub struct GetRatingsPayload {
    pub root_path: String,
}

#[derive(Debug)]
pub struct SetCropStatusPayload {
    pub root_path: String,
    pub relative_path: String,
    pub status: String,
}

#[derive(Debug)]
pub struct GetCropStatusesPayload {
    pub root_path: String,
}

/// The ratings read from the document text `content`, if the file exists:
/// a missing or malformed document gives no ratings.
pub open spec fn ratings_from(content: Option<Seq<char>>) -> Map<Seq<char>, Seq<char>> {
    match content {
        Some(t) => match document_entries(t, ratings_field()) {
            Some(m) => m,
            None => Map::empty(),
        },
        None => Map::empty(),
    }
}

/// What storing the rating named `rating` does to the ratings: a name that is
/// no rating, or "none", removes the key.
pub open spec fn rated(m: Map<Seq<char>, Seq<char>>, key: Seq<char>, rating: Seq<char>) -> Map<
    Seq<char>,
    Seq<char>,
> {
    let r = rating_named(rating);
    put_value(
        m,
        key,
        if r == ImageRating::Unrated {
            None
        } else {
            Some(rating_name(r))
        },
    )
}

/// What storing `status` does to the crop statuses: "uncropped" removes the key.
pub open spec fn with_status(m: Map<Seq<char>, Seq<char>>, key: Seq<char>, status: Seq<char>) -> Map<
    Seq<char>,
    Seq<char>,
> {
    put_value(
        m,
        key,
        if status == uncropped() {
            None
        } else {
            Some(status)
        },
    )
}

/// The rating that `m` gives `key`: absent keys are unrated.
pub open spec fn rating_in(m: Map<Seq<char>, Seq<char>>, key: Seq<char>) -> ImageRating {
    if m.contains_key(key) {
        rating_named(m[key])
    } else {
        ImageRating::Unrated
    }
}

impl RatingsData {
    pub fn new() -> (r: Self)
        ensures
            r.ratings.wf(),
            r.ratings@ == Map::<Seq<char>, Seq<char>>::empty(),
    {
        RatingsData { ratings: PathKeyedStore::new() }
    }
}

impl CropStatusData {
    pub fn new() -> (r: Self)
        ensures
            r.statuses.wf(),
            r.statuses@ == Map::<Seq<char>, Seq<char>>::empty(),
    {
        CropStatusData { statuses: PathKeyedStore::new() }
    }
}

/// Reads ratings from the text of the ratings file (`None` where there is no
/// file). Reading is tolerant: a malformed document gives no ratings.
pub fn load_ratings(content: Option<&str>) -> (r: RatingsData)
    ensures
        r.ratings.wf(),
        r.ratings@ == ratings_from(
            match content {
                Some(t) => Some(t@),
                None => None,
            },
        ),
{
    match content {
        Some(t) => match PathKeyedStore::parse_document(t, "ratings") {
            Ok(st) => RatingsData { ratings: st },
            Err(DocumentError::MissingField) => {
                let r = RatingsData::new();
                assert(r.ratings@ =~= ratings_from(Some(t@)));
                r
            },
            Err(DocumentError::Malformed(_)) => RatingsData::new(),
        },
        None => RatingsData::new(),
    }
}

/// The text of the ratings file for `data`.
pub fn ratings_document(data: &RatingsData) -> (r: Result<String, DocumentError>)
    requires
        data.ratings.wf(),
    ensures
        r is Ok,
        r matches Ok(t) ==> t@ == json_document_text(ratings_field(), data.ratings@),
{
    data.ratings.to_document("ratings")
}

/// The rating of the image at `relative_path`, looked up by its store key.
pub fn get_rating(data: &RatingsData, relative_path: &str) -> (r: ImageRating)
    requires
        data.ratings.wf(),
    ensures
        r == rating_in(data.ratings@, store_key(relative_path@)),
{
    let key = normalize_key(relative_path);
    match data.ratings.get(key.as_str()) {
        Some(v) => ImageRating::from_str(v.as_str()),
        None => ImageRating::Unrated,
    }
}

/// Rates the image at `relative_path`, keyed by its store key; rating it
/// "none" (or by a name that is no rating) removes its entry.
pub fn set_rating(data: &mut RatingsData, relative_path: String, rating: &str)
    requires
        old(data).ratings.wf(),
    ensures
        final(data).ratings.wf(),
        final(data).ratings@ == rated(old(data).ratings@, store_key(relative_path@), rating@),
{
    let key = normalize_key(relative_path.as_str());
    let r = ImageRating::from_str(rating);
    if r == ImageRating::Unrated {
        data.ratings.put(key, None);
    } else {
        data.ratings.put(key, Some(r.as_str().to_string()));
    }
}

/// Removes every rating, returning how many there were.
pub fn clear_all_ratings(data: &mut RatingsData) -> (r: usize)
    requires
        old(data).ratings.wf(),
    ensures
        final(data).ratings.wf(),
        final(data).ratings@ == Map::<Seq<char>, Seq<char>>::empty(),
        r == old(data).ratings@.dom().len(),
{
    data.ratings.clear()
}

/// Reads crop statuses from the text of the crop-status file (`None` where
/// there is no file). Reading is strict: a malformed document, or one without
/// the statuses field, is an error.
pub fn load_crop_statuses(content: Option<&str>) -> (r: Result<CropStatusData, DocumentError>)
    ensures
        r is Ok ==> r.unwrap().statuses.wf(),
        content is None ==> r is Ok && r.unwrap().statuses@ == Map::<Seq<char>, Seq<char>>::empty(),
        content matches Some(t) ==> (r is Ok <==> json_field(t@, statuses_field()) matches Some(Some(_))),
        content matches Some(t) ==> (r is Ok ==> r.unwrap().statuses@ == json_field(
            t@,
            statuses_field(),
        ).unwrap().unwrap()),
{
    match content {
        Some(t) => match PathKeyedStore::parse_document(t, "statuses") {
            Ok(st) => Ok(CropStatusData { statuses: st }),
            Err(e) => Err(e),
        },
        None => Ok(CropStatusData::new()),
    }
}

/// The text of the crop-status file for `data`.
pub fn crop_statuses_document(data: &CropStatusData) -> (r: Result<String, DocumentError>)
    requires
        data.statuses.wf(),
    ensures
        r is Ok,
        r matches Ok(t) ==> t@ == json_document_text(statuses_field(), data.statuses@),
{
    data.statuses.to_document("statuses")
}

/// Sets the crop status of the image at `relative_path`, keyed by its store
/// key; "uncropped" removes its entry.
pub fn set_crop_status(data: &mut CropStatusData, relative_path: String, status: String)
    requires
        old(data).statuses.wf(),
    ensures
        final(data).statuses.wf(),
        final(data).statuses@ == with_status(old(data).statuses@, store_key(relative_path@), status@),
{
    let key = normalize_key(relative_path.as_str());
    if same_str(status.as_str(), "uncropped") {
        data.statuses.put(key, None);
    } else {
        data.statuses.put(key, Some(status));
    }
}

/// Removes every crop status, returning how many there were.
pub fn clear_all_crop_statuses(data: &mut CropStatusData) -> (r: usize)
    requires
        old(data).statuses.wf(),
    ensures
        final(data).statuses.wf(),
        final(data).statuses@ == Map::<Seq<char>, Seq<char>>::empty(),
        r == old(data).statuses@.dom().len(),
{
    data.statuses.clear()
}

/// Setting a rating of "none" leaves no entry for the key, and setting it
/// again changes nothing; likewise for the crop status "uncropped".
pub proof fn lemma_sentinel_idempotent(m: Map<Seq<char>, Seq<char>>, key: Seq<char>)
    ensures
        !rated(m, key, "none"@).contains_key(key),
        rated(rated(m, key, "none"@), key, "none"@) == rated(m, key, "none"@),
        !with_status(m, key, uncropped()).contains_key(key),
        with_status(with_status(m, key, uncropped()), key, uncropped()) == with_status(
            m,
            key,
            uncropped(),
        ),
{
    crate::rating::lemma_rating_names_distinct();
    assert(rating_named("none"@) == ImageRating::Unrated);
    crate::store::lemma_put_none_idempotent(m, key);
}

} // verus!
