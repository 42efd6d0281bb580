//! What the user told about themselves, between runs of the program.
use vstd::prelude::*;
use crate::types::{empty_profile, UserProfile};

verus! {

/// The name of the file that keeps the profile.
pub const PROFILE_FILE: &'static str = "user_profile.json";

/// The profile that was read; an empty one where none could be read.
pub fn profile_or_default(read: Option<UserProfile>) -> (r: UserProfile)
    ensures
        r@ == match read {
            Some(profile) => profile@,
            None => empty_profile(),
        },
        read matches Some(profile) ==> r == profile,
        read is None ==> r.display_name@.len() == 0 && r.aliases@.len() == 0
            && r.family_members@.len() == 0 && r.countries@.len() == 0 && r.currencies@.len() == 0,
{
    match read {
        Some(profile) => profile,
        None => UserProfile::default(),
    }
}

} // verus!
