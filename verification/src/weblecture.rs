//! The web-lecture loader's pure logic: handles and the naming of listed
//! lecture videos.

use vstd::prelude::*;

use crate::resource::Resource;
use crate::util::{rfc3339_millis, spec_sanitise, spec_with_mp4_extension};

verus! {

/// The web lectures of one module.
pub struct WebLectureHandle {
    pub id: String,
    pub path: String,
}

impl WebLectureHandle {
    /// The handle of a module's web lectures.
    pub fn new(id: String, path: String) -> (r: WebLectureHandle)
        ensures
            r.id@ == id@,
            r.path@ == path@,
    {
        WebLectureHandle { id, path }
    }
}

/// One recorded web lecture.
#[derive(Clone, Debug)]
pub struct WebLectureVideo {
    pub module_id: String,
    pub id: String,
    pub path: String,
    pub last_updated: i64,
}

/// The mathematical content of a web lecture record.
pub struct WebLectureVideoView {
    pub module_id: Seq<char>,
    pub id: Seq<char>,
    pub path: Seq<char>,
    pub last_updated: int,
}

impl View for WebLectureVideo {
    type V = WebLectureVideoView;

    open spec fn view(&self) -> WebLectureVideoView {
        WebLectureVideoView {
            module_id: self.module_id@,
            id: self.id@,
            path: self.path@,
            last_updated: self.last_updated as int,
        }
    }
}

impl Resource for WebLectureVideo {
    open spec fn id_spec(&self) -> Seq<char> {
        self.id@
    }

    open spec fn path_spec(&self) -> Seq<char> {
        self.path@
    }

    open spec fn updated_spec(&self) -> int {
        self.last_updated as int
    }

    fn id(&self) -> (r: &str) {
        self.id.as_str()
    }

    fn path(&self) -> (r: &String) {
        &self.path
    }

    fn last_updated(&self) -> (r: i64) {
        self.last_updated
    }

    fn set_path(&mut self, p: String) {
        self.path = p;
    }
}

/// One session of the module's web-lecture listing.
#[derive(Clone, Debug)]
pub struct WebLectureMedia {
    pub id: String,
    pub name: String,
    pub last_updated_date: String,
}

impl WebLectureHandle {
    /// The videos of this module's web-lecture listing: each session
    /// becomes a video under this handle's directory, its sanitized name
    /// given the `mp4` extension.  A session whose last-updated time does
    /// not parse fails the whole listing.
    pub fn videos_from_sessions(&self, sessions: &Vec<WebLectureMedia>) -> (r: Result<
        Vec<WebLectureVideo>,
        crate::Error,
    >)
        ensures
            match r {
                Ok(videos) => videos@.len() == sessions@.len() && forall|k: int|
                    0 <= k < sessions@.len() ==> {
                        let v = (#[trigger] videos@[k])@;
                        v.module_id == self.id@ && v.id == sessions@[k].id@ && v.path
                            == crate::file::spec_path_join(
                            self.path@,
                            spec_with_mp4_extension(spec_sanitise(sessions@[k].name@)),
                        ) && Some(v.last_updated) == rfc3339_millis(
                            sessions@[k].last_updated_date@,
                        )
                    },
                Err(e) => e == "Failed to parse last updated time" && exists|k: int|
                    0 <= k < sessions@.len() && rfc3339_millis(
                        (#[trigger] sessions@[k]).last_updated_date@,
                    ) is None,
            },
    {
        let mut videos: Vec<WebLectureVideo> = Vec::new();
        let mut k: usize = 0;
        while k < sessions.len()
            invariant
                0 <= k <= sessions@.len(),
                videos@.len() == k,
                forall|j: int|
                    0 <= j < k ==> {
                        let v = (#[trigger] videos@[j])@;
                        v.module_id == self.id@ && v.id == sessions@[j].id@ && v.path
                            == crate::file::spec_path_join(
                            self.path@,
                            spec_with_mp4_extension(spec_sanitise(sessions@[j].name@)),
                        ) && Some(v.last_updated) == rfc3339_millis(
                            sessions@[j].last_updated_date@,
                        )
                    },
            decreases sessions@.len() - k,
        {
            let s = &sessions[k];
            let updated = match crate::util::parse_time(s.last_updated_date.as_str()) {
                Some(t) => t,
                None => {
                    return Err("Failed to parse last updated time");
                },
            };
            let clean = crate::util::sanitise_filename(s.name.as_str());
            let named = crate::util::make_mp4_extension(clean.as_str());
            let path = crate::file::path_join(self.path.as_str(), named.as_str());
            videos.push(
                WebLectureVideo {
                    module_id: self.id.clone(),
                    id: s.id.clone(),
                    path,
                    last_updated: updated,
                },
            );
            k = k + 1;
        }
        Ok(videos)
    }
}

} // verus!
