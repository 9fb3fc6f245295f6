//! The multimedia loader's pure logic: channels, internally hosted videos,
//! and the naming of their files.

use vstd::prelude::*;

use crate::resource::Resource;
use crate::util::{rfc3339_millis, spec_sanitise, spec_with_mp4_extension};

pub mod external_multimedia;

pub use external_multimedia::ExternalVideo;

verus! {

/// One multimedia channel of a module; an external-tool channel is hosted
/// on the external video platform.
#[derive(Clone, Debug)]
pub struct Channel {
    pub id: String,
    pub name: String,
    pub is_external_tool: bool,
}

/// The multimedia of one module.
pub struct MultimediaHandle {
    pub id: String,
    pub path: String,
}

impl MultimediaHandle {
    /// The handle of a module's multimedia.
    pub fn new(id: String, path: String) -> (r: MultimediaHandle)
        ensures
            r.id@ == id@,
            r.path@ == path@,
    {
        MultimediaHandle { id, path }
    }

    /// Where a channel's videos are stored: under the handle's directory, in
    /// a folder named after the sanitized channel name.
    pub fn channel_path(&self, channel: &Channel) -> (r: String)
        ensures
            r@ == crate::file::spec_path_join(self.path@, spec_sanitise(channel.name@)),
    {
        let clean = crate::util::sanitise_filename(channel.name.as_str());
        crate::file::path_join(self.path.as_str(), clean.as_str())
    }
}

/// An internally hosted video, downloaded by muxing its stream manifest.
#[derive(Clone, Debug)]
pub struct InternalVideo {
    pub id: String,
    pub stream_url_path: String,
    pub path: String,
    pub last_updated: i64,
}

/// The mathematical content of an internal video record.
pub struct InternalVideoView {
    pub id: Seq<char>,
    pub stream_url_path: Seq<char>,
    pub path: Seq<char>,
    pub last_updated: int,
}

impl View for InternalVideo {
    type V = InternalVideoView;

    open spec fn view(&self) -> InternalVideoView {
        InternalVideoView {
            id: self.id@,
            stream_url_path: self.stream_url_path@,
            path: self.path@,
            last_updated: self.last_updated as int,
        }
    }
}

impl Resource for InternalVideo {
    open spec fn id_spec(&self) -> Seq<char> {
        self.id@
    }

    open spec fn path_spec(&self) -> Seq<char> {
        self.path@
    }

    open spec fn updated_spec(&self) -> int {
        self.last_updated as int
    }

    fn id(&self) -> (r: &str) {
        self.id.as_str()
    }

    fn path(&self) -> (r: &String) {
        &self.path
    }

    fn last_updated(&self) -> (r: i64) {
        self.last_updated
    }

    fn set_path(&mut self, p: String) {
        self.path = p;
    }
}

/// One item of a channel's media listing; an item without a stream URL is
/// not a video.
#[derive(Clone, Debug)]
pub struct InternalMedia {
    pub id: String,
    pub name: String,
    pub last_updated_date: String,
    pub stream_url_path: Option<String>,
}

/// The mathematical content of a media listing item.
pub struct InternalMediaView {
    pub id: Seq<char>,
    pub name: Seq<char>,
    pub last_updated_date: Seq<char>,
    pub stream_url_path: Option<Seq<char>>,
}

impl View for InternalMedia {
    type V = InternalMediaView;

    open spec fn view(&self) -> InternalMediaView {
        InternalMediaView {
            id: self.id@,
            name: self.name@,
            last_updated_date: self.last_updated_date@,
            stream_url_path: match self.stream_url_path {
                Some(u) => Some(u@),
                None => None,
            },
        }
    }
}

/// The videos of a channel listing, in order: items without a stream URL
/// are skipped; each video is stored under the channel path, its sanitized
/// name given the `mp4` extension.  `None` when some kept item's
/// last-updated time does not parse.
pub open spec fn spec_internal_videos(channel_path: Seq<char>, medias: Seq<InternalMediaView>) -> Option<
    Seq<InternalVideoView>,
>
    decreases medias.len(),
{
    if medias.len() == 0 {
        Some(Seq::<InternalVideoView>::empty())
    } else {
        let rest = spec_internal_videos(channel_path, medias.drop_last());
        let m = medias.last();
        match m.stream_url_path {
            None => rest,
            Some(u) => match (rest, rfc3339_millis(m.last_updated_date)) {
                (Some(vs), Some(t)) => Some(
                    vs.push(
                        InternalVideoView {
                            id: m.id,
                            stream_url_path: u,
                            path: crate::file::spec_path_join(
                                channel_path,
                                spec_with_mp4_extension(spec_sanitise(m.name)),
                            ),
                            last_updated: t,
                        },
                    ),
                ),
                _ => None,
            },
        }
    }
}

/// Read one channel's media listing into its videos.
pub fn internal_videos_from(channel_path: &str, medias: &Vec<InternalMedia>) -> (r: Result<
    Vec<InternalVideo>,
    crate::Error,
>)
    ensures
        match r {
            Ok(videos) => spec_internal_videos(
                channel_path@,
                medias@.map_values(|m: InternalMedia| m@),
            ) == Some(videos@.map_values(|v: InternalVideo| v@)),
            Err(e) => e == "Failed to parse last updated time" && spec_internal_videos(
                channel_path@,
                medias@.map_values(|m: InternalMedia| m@),
            ) is None,
        },
{
    let ghost mvs = medias@.map_values(|m: InternalMedia| m@);
    let mut videos: Vec<InternalVideo> = Vec::new();
    let mut k: usize = 0;
    proof {
        assert(mvs.subrange(0, 0) =~= Seq::<InternalMediaView>::empty());
        assert(videos@.map_values(|v: InternalVideo| v@) =~= Seq::<InternalVideoView>::empty());
    }
    while k < medias.len()
        invariant
            mvs == medias@.map_values(|m: InternalMedia| m@),
            0 <= k <= medias@.len(),
            spec_internal_videos(channel_path@, mvs.subrange(0, k as int)) == Some(
                videos@.map_values(|v: InternalVideo| v@),
            ),
        decreases medias@.len() - k,
    {
        let ghost pre = videos@;
        proof {
            assert(mvs.subrange(0, k + 1).drop_last() =~= mvs.subrange(0, k as int));
            assert(mvs.subrange(0, k + 1).last() == mvs[k as int]);
            assert(mvs[k as int] == medias@[k as int]@);
        }
        let m = &medias[k];
        match &m.stream_url_path {
            None => {},
            Some(u) => {
                let updated = match crate::util::parse_time(m.last_updated_date.as_str()) {
                    Some(t) => t,
                    None => {
                        proof {
                            lemma_internal_videos_none(channel_path@, mvs, k as int);
                        }
                        return Err("Failed to parse last updated time");
                    },
                };
                let clean = crate::util::sanitise_filename(m.name.as_str());
                let named = crate::util::make_mp4_extension(clean.as_str());
                let path = crate::file::path_join(channel_path, named.as_str());
                videos.push(
                    InternalVideo {
                        id: m.id.clone(),
                        stream_url_path: u.clone(),
                        path,
                        last_updated: updated,
                    },
                );
                proof {
                    assert(videos@.map_values(|v: InternalVideo| v@) =~= pre.map_values(
                        |v: InternalVideo| v@,
                    ).push(videos@[videos@.len() - 1]@));
                }
            },
        }
        proof {
            assert(spec_internal_videos(channel_path@, mvs.subrange(0, k + 1)) == Some(
                videos@.map_values(|v: InternalVideo| v@),
            ));
        }
        k = k + 1;
    }
    proof {
        assert(mvs.subrange(0, medias@.len() as int) =~= mvs);
    }
    Ok(videos)
}

/// Once a kept item's time fails to parse, the whole listing yields `None`.
proof fn lemma_internal_videos_none(channel_path: Seq<char>, mvs: Seq<InternalMediaView>, k: int)
    requires
        0 <= k < mvs.len(),
        mvs[k].stream_url_path is Some,
        rfc3339_millis(mvs[k].last_updated_date) is None,
    ensures
        spec_internal_videos(channel_path, mvs) is None,
    decreases mvs.len(),
{
    if mvs.len() > 0 {
        if k == mvs.len() - 1 {
            assert(mvs.last() == mvs[k]);
        } else {
            lemma_internal_videos_none(channel_path, mvs.drop_last(), k);
        }
    }
}

} // verus!
