use vstd::prelude::*;

use crate::errors::UploadError;

verus! {

/// Which page asked for a single fixed-path picture upload.
#[derive(Debug, Clone, Copy, PartialEq, Eq, Structural)]
pub enum PicPage {
    Inn,
    User,
    Other,
}

/// Where a validated picture must be written, and whose page the uploader
/// is sent back to.
#[derive(Debug, Clone, Copy, PartialEq, Eq, Structural)]
pub enum PicDest {
    /// The icon of community `iid`; the uploader returns to its
    /// moderation page.
    InnIcon { iid: u32 },
    /// The avatar of user `uid`; the uploader returns to the settings
    /// page.
    UserAvatar { uid: u32 },
}

/// The destination decision for a fixed-path picture upload. A community
/// icon needs the community named and the uploader moderating it; an
/// avatar always goes to the uploader's own slot; any other page is not a
/// picture target.
pub open spec fn pic_destination_spec(
    page: PicPage,
    iid: Option<u32>,
    uid: u32,
    is_moderator: bool,
) -> Result<PicDest, UploadError> {
    match page {
        PicPage::Inn => match iid {
            Some(i) => if is_moderator {
                Ok(PicDest::InnIcon { iid: i })
            } else {
                Err(UploadError::Unauthorized)
            },
            None => Err(UploadError::NotFound),
        },
        PicPage::User => Ok(PicDest::UserAvatar { uid }),
        PicPage::Other => Err(UploadError::NotFound),
    }
}

/// Decide where a single picture upload goes. `is_moderator` is the Auth
/// Context's answer to whether the uploader moderates the community in
/// `iid`; it is only consulted for a community icon.
pub fn pic_destination(page: PicPage, iid: Option<u32>, uid: u32, is_moderator: bool) -> (r: Result<
    PicDest,
    UploadError,
>)
    ensures
        r == pic_destination_spec(page, iid, uid, is_moderator),
{
    match page {
        PicPage::Inn => match iid {
            Some(i) => if is_moderator {
                Ok(PicDest::InnIcon { iid: i })
            } else {
                Err(UploadError::Unauthorized)
            },
            None => Err(UploadError::NotFound),
        },
        PicPage::User => Ok(PicDest::UserAvatar { uid }),
        PicPage::Other => Err(UploadError::NotFound),
    }
}

} // verus!
