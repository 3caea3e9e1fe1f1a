//! The rating of an image.
use vstd::prelude::*;
use crate::text::same_str;

verus! {

/// How an image was rated; `Unrated` is the default and is never stored.
#[derive(Clone, Copy, Debug, PartialEq, Eq, Structural)]
pub enum ImageRating {
    Unrated,
    Good,
    Bad,
    NeedsEdit,
}

/// The stored name of a rating.
pub open spec fn rating_name(r: ImageRating) -> Seq<char> {
    match r {
        ImageRating::Unrated => "none"@,
        ImageRating::Good => "good"@,
        ImageRating::Bad => "bad"@,
        ImageRating::NeedsEdit => "needs_edit"@,
    }
}

/// The rating a stored name stands for; any unknown name is `Unrated`.
pub open spec fn rating_named(s: Seq<char>) -> ImageRating {
    if s == "good"@ {
        ImageRating::Good
    } else if s == "bad"@ {
        ImageRating::Bad
    } else if s == "needs_edit"@ {
        ImageRating::NeedsEdit
    } else {
        ImageRating::Unrated
    }
}

impl Default for ImageRating {
    fn default() -> (r: Self)
        ensures
            r == ImageRating::Unrated,
    {
        ImageRating::Unrated
    }
}

impl ImageRating {
    pub fn as_str(&self) -> (r: &'static str)
        ensures
            r@ == rating_name(*self),
    {
        match self {
            ImageRating::Unrated => "none",
            ImageRating::Good => "good",
            ImageRating::Bad => "bad",
            ImageRating::NeedsEdit => "needs_edit",
        }
    }

    pub fn from_str(s: &str) -> (r: Self)
        ensures
            r == rating_named(s@),
    {
        if same_str(s, "good") {
            ImageRating::Good
        } else if same_str(s, "bad") {
            ImageRating::Bad
        } else if same_str(s, "needs_edit") {
            ImageRating::NeedsEdit
        } else {
            ImageRating::Unrated
        }
    }
}

pub proof fn lemma_rating_names_distinct()
    ensures
        "none"@ != "good"@,
        "none"@ != "bad"@,
        "none"@ != "needs_edit"@,
        "good"@ != "bad"@,
        "good"@ != "needs_edit"@,
        "bad"@ != "needs_edit"@,
{
    reveal_strlit("none");
    reveal_strlit("good");
    reveal_strlit("bad");
    reveal_strlit("needs_edit");
    assert("none"@[0] != "good"@[0]);
    assert("none"@[0] != "bad"@[0]);
    assert("none"@[0] != "needs_edit"@[1]);
    assert("good"@[0] != "bad"@[0]);
    assert("good"@.len() != "needs_edit"@.len());
    assert("bad"@.len() != "needs_edit"@.len());
}

/// Reading back the stored name of a rating gives the rating.
pub proof fn lemma_rating_round_trip(r: ImageRating)
    ensures
        rating_named(rating_name(r)) == r,
{
    lemma_rating_names_distinct();
}

} // verus!
