//! Full user profile records as fetched from the directory service, and the
//! abridged fact sheet derived from them.

use vstd::prelude::*;
use crate::cache::AbridgedUser;
use crate::time::Timestamp;

verus! {

/// The tag that marks a mentor account.
pub open spec fn mentor_tag() -> Seq<char> {
    "neos mentor"@
}

pub struct Profile {
    pub icon_url: String,
}

pub struct PatreonData {
    pub is_patreon_supporter: bool,
    pub last_patreon_pledge_cents: i32,
    pub last_total_cents: i32,
    pub last_total_units: i32,
    pub minimum_total_units: i32,
    pub external_cents: i32,
    pub last_external_cents: i32,
    pub has_supported: bool,
    pub last_is_anorak: bool,
    pub priority_issue: i32,
    pub last_plus_activation_time: String,
    pub last_activation_time: String,
    pub last_plus_pledge_amount: i32,
    pub last_paid_pledge_amount: i32,
    pub account_name: String,
    pub current_account_type: i32,
    pub current_account_cents: i32,
    pub pledged_account_type: i32,
}

/// A full profile record for one user.
pub struct User {
    pub id: String,
    pub username: String,
    pub normalized_username: String,
    pub registration_date: Timestamp,
    pub is_verified: bool,
    pub quota_bytes: i32,
    pub is_locked: bool,
    pub used_bytes: i32,
    pub profile: Option<Profile>,
    pub patreon_data: Option<PatreonData>,
    pub tags: Option<Vec<String>>,
}

/// Whether the profile's patreon sub-record marks an active supporter.
pub open spec fn is_patron_spec(u: &User) -> bool {
    match u.patreon_data {
        Some(p) => p.is_patreon_supporter,
        None => false,
    }
}

/// Whether the profile's tag list contains the mentor tag, case-sensitively.
pub open spec fn is_mentor_spec(u: &User) -> bool {
    match u.tags {
        Some(tags) => exists|i: int| 0 <= i < tags@.len() && (#[trigger] tags@[i])@ == mentor_tag(),
        None => false,
    }
}

impl User {
    pub fn is_patron(&self) -> (r: bool)
        ensures
            r == is_patron_spec(self),
    {
        match &self.patreon_data {
            Some(p) => p.is_patreon_supporter,
            None => false,
        }
    }

    #[verifier::loop_isolation(false)]
    fn is_mentor(&self) -> (r: bool)
        ensures
            r == is_mentor_spec(self),
    {
        let needle: String = "neos mentor".to_owned();
        match self.tags.as_ref() {
            Some(tags) => {
                let n = tags.len();
                let mut i: usize = 0;
                while i < n
                    invariant
                        n == tags@.len(),
                        i <= n,
                        needle@ == mentor_tag(),
                        forall|j: int| 0 <= j < i ==> (#[trigger] tags@[j])@ != mentor_tag(),
                    decreases n - i,
                {
                    if tags[i].eq(&needle) {
                        proof {
                            assert((tags@[i as int])@ == mentor_tag());
                            assert(is_mentor_spec(self));
                        }
                        return true;
                    }
                    i = i + 1;
                }
                false
            },
            None => false,
        }
    }

    /// Derives the cached fact sheet: patron and mentor flags, the registration
    /// date copied verbatim, and the given creation time.
    pub fn abridge(self, cache_time: Timestamp) -> (r: AbridgedUser)
        ensures
            r.is_patron == is_patron_spec(&self),
            r.is_mentor == is_mentor_spec(&self),
            r.registration_date == self.registration_date,
            r.cache_time == cache_time,
    {
        AbridgedUser {
            is_patron: self.is_patron(),
            is_mentor: self.is_mentor(),
            registration_date: self.registration_date,
            cache_time,
        }
    }
}

/// The user's current live status as fetched from the directory service.
pub struct UserStatus {
    pub online_status: String,
    pub last_status_change: Timestamp,
    pub current_session_access_level: i32,
    pub current_session_hidden: bool,
    pub current_hosting: bool,
    pub compatibility_hash: String,
    pub neos_version: String,
    pub output_device: String,
    pub is_mobile: bool,
}

} // verus!
