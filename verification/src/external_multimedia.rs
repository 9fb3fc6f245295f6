//! An earlier shape of the externally hosted multimedia loader, kept for
//! callers that address videos by their viewer page: the folder lookup's
//! request body, and videos downloaded from a scraped page URL.

use vstd::prelude::*;

use crate::util::{spec_sanitise, spec_with_mp4_extension};

verus! {

/// The body of the folder lookup POST.
#[derive(Clone, Debug)]
pub struct ExternalMultimediaRequest {
    pub query_parameters: ExternalMultimediaRequestQueryParameters,
}

/// The folder the lookup asks about.
#[derive(Clone, Debug)]
pub struct ExternalMultimediaRequestQueryParameters {
    pub folder_id: String,
}

/// The externally hosted multimedia of one module, addressed by viewer
/// pages.
pub struct ExternalMultimediaHandle {
    pub id: String,
    pub path: String,
}

impl ExternalMultimediaHandle {
    /// The handle of a module's externally hosted multimedia.
    pub fn new(id: String, path: String) -> (r: ExternalMultimediaHandle)
        ensures
            r.id@ == id@,
            r.path@ == path@,
    {
        ExternalMultimediaHandle { id, path }
    }
}

/// An externally hosted video addressed by its viewer page; the platform
/// keeps no last-updated time, so the epoch stands in.
#[derive(Clone, Debug)]
pub struct ExternalMultimediaVideo {
    pub html_url: String,
    pub path: String,
}

impl ExternalMultimediaVideo {
    /// The video's destination path.
    pub fn path(&self) -> (r: &String)
        ensures
            r@ == self.path@,
    {
        &self.path
    }

    /// The platform keeps no last-updated time: the epoch stands in.
    pub fn get_last_updated(&self) -> (r: i64)
        ensures
            r == 0,
    {
        0
    }
}

/// One result of the folder lookup, by viewer page.
#[derive(Clone, Debug)]
pub struct ExternalViewerSession {
    pub viewer_url: String,
    pub session_name: String,
}

/// The videos of a folder lookup, by viewer page: each session becomes a
/// video under the channel path, its sanitized name given the `mp4`
/// extension.
pub fn external_viewer_videos_from(
    channel_path: &str,
    sessions: &Vec<ExternalViewerSession>,
) -> (r: Vec<ExternalMultimediaVideo>)
    ensures
        r@.len() == sessions@.len(),
        forall|k: int|
            0 <= k < sessions@.len() ==> (#[trigger] r@[k]).html_url@ == sessions@[k].viewer_url@
                && r@[k].path@ == crate::file::spec_path_join(
                channel_path@,
                spec_with_mp4_extension(spec_sanitise(sessions@[k].session_name@)),
            ),
{
    let mut r: Vec<ExternalMultimediaVideo> = Vec::new();
    let mut k: usize = 0;
    while k < sessions.len()
        invariant
            0 <= k <= sessions@.len(),
            r@.len() == k,
            forall|j: int|
                0 <= j < k ==> (#[trigger] r@[j]).html_url@ == sessions@[j].viewer_url@ && r@[
                    j
                ].path@ == crate::file::spec_path_join(
                    channel_path@,
                    spec_with_mp4_extension(spec_sanitise(sessions@[j].session_name@)),
                ),
        decreases sessions@.len() - k,
    {
        let s = &sessions[k];
        let clean = crate::util::sanitise_filename(s.session_name.as_str());
        let named = crate::util::make_mp4_extension(clean.as_str());
        let path = crate::file::path_join(channel_path, named.as_str());
        r.push(ExternalMultimediaVideo { html_url: s.viewer_url.clone(), path });
        k = k + 1;
    }
    r
}

} // verus!
