//! Externally hosted multimedia: videos served by the external platform,
//! found through the launch handoff and a folder lookup.

use vstd::prelude::*;

use crate::resource::Resource;
use crate::util::{spec_sanitise, spec_with_mp4_extension};

verus! {

/// An externally hosted video; its id is the platform's delivery id, and
/// the platform keeps no last-updated time, so the epoch stands in.
#[derive(Clone, Debug)]
pub struct ExternalVideo {
    pub id: String,
    pub path: String,
}

/// The mathematical content of an external video record.
pub struct ExternalVideoView {
    pub id: Seq<char>,
    pub path: Seq<char>,
}

impl View for ExternalVideo {
    type V = ExternalVideoView;

    open spec fn view(&self) -> ExternalVideoView {
        ExternalVideoView { id: self.id@, path: self.path@ }
    }
}

impl Resource for ExternalVideo {
    open spec fn id_spec(&self) -> Seq<char> {
        self.id@
    }

    open spec fn path_spec(&self) -> Seq<char> {
        self.path@
    }

    open spec fn updated_spec(&self) -> int {
        0
    }

    fn id(&self) -> (r: &str) {
        self.id.as_str()
    }

    fn path(&self) -> (r: &String) {
        &self.path
    }

    fn last_updated(&self) -> (r: i64) {
        0
    }

    fn set_path(&mut self, p: String) {
        self.path = p;
    }
}

/// One session of the platform's folder listing.
#[derive(Clone, Debug)]
pub struct ExternalSession {
    pub delivery_id: String,
    pub session_name: String,
}

/// The videos of an external channel's folder listing: each session becomes
/// a video under the channel path, its sanitized name given the `mp4`
/// extension.
pub fn external_videos_from(channel_path: &str, sessions: &Vec<ExternalSession>) -> (r: Vec<
    ExternalVideo,
>)
    ensures
        r@.len() == sessions@.len(),
        forall|k: int|
            0 <= k < sessions@.len() ==> (#[trigger] r@[k])@.id == sessions@[k].delivery_id@ && r@[
                k
            ]@.path == crate::file::spec_path_join(
                channel_path@,
                spec_with_mp4_extension(spec_sanitise(sessions@[k].session_name@)),
            ),
{
    let mut r: Vec<ExternalVideo> = Vec::new();
    let mut k: usize = 0;
    while k < sessions.len()
        invariant
            0 <= k <= sessions@.len(),
            r@.len() == k,
            forall|j: int|
                0 <= j < k ==> (#[trigger] r@[j])@.id == sessions@[j].delivery_id@ && r@[j]@.path
                    == crate::file::spec_path_join(
                    channel_path@,
                    spec_with_mp4_extension(spec_sanitise(sessions@[j].session_name@)),
                ),
        decreases sessions@.len() - k,
    {
        let s = &sessions[k];
        let clean = crate::util::sanitise_filename(s.session_name.as_str());
        let named = crate::util::make_mp4_extension(clean.as_str());
        let path = crate::file::path_join(channel_path, named.as_str());
        r.push(ExternalVideo { id: s.delivery_id.clone(), path });
        k = k + 1;
    }
    r
}

/// The launch lands on the platform's folder page, whose fragment carries
/// the folder id in a nonstandard quoted encoding: the `folderID` parameter
/// must be a double-quoted string, and the quotes are stripped.
pub fn panopto_folder_id(fragment: &str) -> (r: Result<String, crate::Error>)
    ensures
        match crate::api::spec_query_param(fragment@, "folderID"@) {
            None => r == Result::<String, crate::Error>::Err(
                "Failed to decode external multimedia request query parameters to get folder ID",
            ),
            Some(q) => {
                if q.len() > 2 && q[0] == '"' && q[q.len() - 1] == '"' {
                    r is Ok && r->Ok_0@ == q.subrange(1, q.len() - 1)
                } else {
                    r == Result::<String, crate::Error>::Err(
                        "Cannot parse external multimedia folder ID",
                    )
                }
            },
        },
{
    let quoted = match crate::api::query_param(fragment, "folderID") {
        Some(q) => q,
        None => {
            return Err(
                "Failed to decode external multimedia request query parameters to get folder ID",
            );
        },
    };
    let qs = quoted.as_str();
    let len = qs.unicode_len();
    if len > 2 && qs.get_char(0) == '"' && qs.get_char(len - 1) == '"' {
        let mid = qs.substring_char(1, len - 1);
        let mut r = String::new();
        r.append(mid);
        Ok(r)
    } else {
        Err("Cannot parse external multimedia folder ID")
    }
}

} // verus!
