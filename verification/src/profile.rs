//! The one Controller profile that the server speaks.

use vstd::prelude::*;

use crate::messages;
use crate::session::{negotiate_profile, negotiated, ProfileError, ProfileModel, ProfileRef};

verus! {

/// The characters with Unicode's `White_Space` property.
pub open spec fn white_space(c: char) -> bool {
    let code = c as u32;
    ||| 0x09 <= code <= 0x0D
    ||| code == 0x20
    ||| code == 0x85
    ||| code == 0xA0
    ||| code == 0x1680
    ||| 0x2000 <= code <= 0x200A
    ||| code == 0x2028
    ||| code == 0x2029
    ||| code == 0x202F
    ||| code == 0x205F
    ||| code == 0x3000
}

/// A text without the white space at its ends.
pub open spec fn trimmed(text: Seq<char>) -> Seq<char>
    decreases text.len(),
{
    if text.len() == 0 {
        text
    } else if white_space(text.first()) {
        trimmed(text.drop_first())
    } else if white_space(text.last()) {
        trimmed(text.drop_last())
    } else {
        text
    }
}

/// Calls `str::trim`, which leaves out the white space at both ends of a text and
/// keeps all that stands between. White space is what Unicode calls `White_Space`.
#[verifier::external_body]
fn trim(text: &str) -> (result: String)
    ensures
        result@ == trimmed(text@),
{
    text.trim().to_owned()
}

/// The outcome of reading a profile reference off the wire.
pub open spec fn read_profile(profile: messages::ProfileRefModel) -> Result<
    ProfileModel,
    ProfileError,
> {
    let named = ProfileModel {
        profile_id: profile.profile_id,
        schema_version: profile.schema_version,
        descriptor_digest: profile.descriptor_digest,
    };
    if named.complete() {
        Ok(named)
    } else {
        Err(ProfileError::InvalidReference)
    }
}

/// A profile reference on the wire.
pub open spec fn written_profile(profile: ProfileModel) -> messages::ProfileRefModel {
    messages::ProfileRefModel {
        profile_id: profile.profile_id,
        schema_version: profile.schema_version,
        descriptor_digest: profile.descriptor_digest,
    }
}

/// The outcome of a request for a profile.
pub open spec fn requested_profile(
    requested: messages::ProfileRefModel,
    supported: ProfileModel,
) -> Result<ProfileModel, ProfileError> {
    match read_profile(requested) {
        Ok(named) => negotiated(named, supported),
        Err(error) => Err(error),
    }
}

/// The Spaces profile, with the digest of its compiled descriptor.
pub fn spaces(descriptor_digest: &str) -> (result: Result<ProfileRef, ProfileError>)
    ensures
        crate::text::outcome(result) == (if trimmed(descriptor_digest@).len() > 0 {
            Ok(
                ProfileModel {
                    profile_id: "mumble.controller.spaces"@,
                    schema_version: 1,
                    descriptor_digest: trimmed(descriptor_digest@),
                },
            )
        } else {
            Err(ProfileError::InvalidReference)
        }),
{
    proof {
        reveal_strlit("mumble.controller.spaces");
    }
    ProfileRef::new("mumble.controller.spaces".to_owned(), 1, trim(descriptor_digest))
}

/// Selects the supported profile before any session state exists.
pub fn negotiate(requested: &messages::ProfileRef, supported: &ProfileRef) -> (result: Result<
    ProfileRef,
    ProfileError,
>)
    ensures
        crate::text::outcome(result) == requested_profile(requested@, supported@),
{
    let named = match ProfileRef::new(
        requested.profile_id.clone(),
        requested.schema_version,
        requested.descriptor_digest.clone(),
    ) {
        Ok(named) => named,
        Err(error) => {
            return Err(error);
        },
    };
    negotiate_profile(&named, supported)
}

/// Selects the supported profile, which also stands for one that is not named.
pub fn negotiate_optional(requested: Option<&messages::ProfileRef>, supported: &ProfileRef) -> (result:
    Result<ProfileRef, ProfileError>)
    ensures
        crate::text::outcome(result) == (match requested {
            Some(named) => requested_profile(named@, supported@),
            None => Ok(supported@),
        }),
{
    match requested {
        Some(named) => negotiate(named, supported),
        None => negotiate_profile(supported, supported),
    }
}

pub fn to_protocol(profile: &ProfileRef) -> (message: messages::ProfileRef)
    ensures
        message@ == written_profile(profile@),
{
    messages::ProfileRef {
        profile_id: profile.profile_id().to_owned(),
        schema_version: profile.schema_version(),
        descriptor_digest: profile.descriptor_digest().to_owned(),
    }
}

/// The supported profile is accepted when it is named in full, and no other is.
pub proof fn only_the_exact_profile_is_accepted(
    requested: messages::ProfileRefModel,
    supported: ProfileModel,
)
    requires
        supported.complete(),
    ensures
        requested_profile(requested, supported) is Ok <==> requested == written_profile(supported),
{
}

/// A profile is told as it is, part by part, and a controller that names what it was told
/// gets it.
pub proof fn a_profile_is_told_as_it_is(supported: ProfileModel)
    requires
        supported.profile_id.len() > 0,
        supported.schema_version != 0,
        supported.descriptor_digest.len() > 0,
    ensures
        written_profile(supported).profile_id == supported.profile_id,
        written_profile(supported).schema_version == supported.schema_version,
        written_profile(supported).descriptor_digest == supported.descriptor_digest,
        requested_profile(written_profile(supported), supported) == Ok::<
            ProfileModel,
            ProfileError,
        >(supported),
{
}

/// A request that leaves a part out is invalid. One that names another profile, another
/// version or another descriptor is told which of them is not there, in this order.
pub proof fn a_request_is_told_what_is_not_there(
    requested: messages::ProfileRefModel,
    supported: ProfileModel,
)
    ensures
        ({
            let whole = requested.profile_id.len() > 0 && requested.schema_version != 0
                && requested.descriptor_digest.len() > 0;
            let answer = requested_profile(requested, supported);
            &&& !whole ==> answer == Err::<ProfileModel, ProfileError>(
                ProfileError::InvalidReference,
            )
            &&& whole && requested.profile_id != supported.profile_id ==> answer == Err::<
                ProfileModel,
                ProfileError,
            >(ProfileError::UnknownProfile)
            &&& whole && requested.profile_id == supported.profile_id
                && requested.schema_version != supported.schema_version ==> answer == Err::<
                ProfileModel,
                ProfileError,
            >(ProfileError::UnknownSchemaVersion)
            &&& whole && requested.profile_id == supported.profile_id
                && requested.schema_version == supported.schema_version
                && requested.descriptor_digest != supported.descriptor_digest ==> answer == Err::<
                ProfileModel,
                ProfileError,
            >(ProfileError::DescriptorMismatch)
        }),
{
}

} // verus!
