//! Facts that hold across the whole catalog.
//!
//! Each predicate's contract already pins its result to a function of the
//! input characters alone, so two calls on the same input always return the
//! same value.  The lemma below records the one fact that relates every
//! entry of the catalog at once: no pattern accepts the empty string.

use vstd::prelude::*;
use crate::common::{
    base64_uri_matches, card_number_matches, credit_code_matches, image_url_matches, imei_matches,
    train_number_matches, url_matches, url_with_port_matches, video_url_matches,
};
use crate::id_card::{hongkong_id_matches, id_card_matches, macau_id_matches, taiwan_id_matches};
use crate::phone::{phone_easy_matches, phone_matches, tel_phone_matches};

verus! {

/// The empty string belongs to no pattern of the catalog: every predicate
/// returns `false` on it.
pub proof fn lemma_empty_string_matches_nothing()
    ensures
        !train_number_matches(Seq::<char>::empty()),
        !imei_matches(Seq::<char>::empty()),
        !url_matches(Seq::<char>::empty()),
        !url_with_port_matches(Seq::<char>::empty()),
        !credit_code_matches(Seq::<char>::empty()),
        !video_url_matches(Seq::<char>::empty()),
        !image_url_matches(Seq::<char>::empty()),
        !base64_uri_matches(Seq::<char>::empty()),
        !card_number_matches(Seq::<char>::empty()),
        !id_card_matches(Seq::<char>::empty()),
        !hongkong_id_matches(Seq::<char>::empty()),
        !macau_id_matches(Seq::<char>::empty()),
        !taiwan_id_matches(Seq::<char>::empty()),
        !phone_matches(Seq::<char>::empty()),
        !phone_easy_matches(Seq::<char>::empty()),
        !tel_phone_matches(Seq::<char>::empty()),
{
}

} // verus!
