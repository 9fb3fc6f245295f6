//! The conferencing loader's logic: which conferences carry recordings, the
//! bounded retry of the cloud-record lookup, the naming of recordings, and
//! the password flow that leads to the video's MP4 URL.

use vstd::prelude::*;

use crate::api::{json_boolean_field, starts_with};
use crate::resource::Resource;
use crate::util::{find_char, find_str, rfc3339_millis, spec_append_number, spec_sanitise,
    spec_with_mp4_extension, trim_start_rec};

verus! {

/// The conferences of one module.
pub struct ConferencingHandle {
    pub id: String,
    pub path: String,
}

impl ConferencingHandle {
    /// The handle of a module's conferences.
    pub fn new(id: String, path: String) -> (r: ConferencingHandle)
        ensures
            r.id@ == id@,
            r.path@ == path@,
    {
        ConferencingHandle { id, path }
    }
}

/// One conference of the module's meeting listing.
#[derive(Clone, Debug)]
pub struct Conference {
    pub id: String,
    pub name: String,
    pub start_date: String,
    pub is_publish_record_url: bool,
}

/// One recording instance of a conference's cloud record.
#[derive(Clone, Debug)]
pub struct CloudRecordInstance {
    pub share_url: String,
    pub password: String,
}

/// A cloud recording of one conference.  Its id is the conference id, which
/// several recordings of one conference share; the numbered filenames tell
/// them apart.
#[derive(Clone, Debug)]
pub struct ZoomRecording {
    pub id: String,
    pub path: String,
    pub share_url: String,
    pub password: String,
    pub start_date: i64,
}

/// The mathematical content of a recording.
pub struct ZoomRecordingView {
    pub id: Seq<char>,
    pub path: Seq<char>,
    pub share_url: Seq<char>,
    pub password: Seq<char>,
    pub start_date: int,
}

impl View for ZoomRecording {
    type V = ZoomRecordingView;

    open spec fn view(&self) -> ZoomRecordingView {
        ZoomRecordingView {
            id: self.id@,
            path: self.path@,
            share_url: self.share_url@,
            password: self.password@,
            start_date: self.start_date as int,
        }
    }
}

impl Resource for ZoomRecording {
    open spec fn id_spec(&self) -> Seq<char> {
        self.id@
    }

    open spec fn path_spec(&self) -> Seq<char> {
        self.path@
    }

    open spec fn updated_spec(&self) -> int {
        self.start_date as int
    }

    fn id(&self) -> (r: &str) {
        self.id.as_str()
    }

    fn path(&self) -> (r: &String) {
        &self.path
    }

    fn last_updated(&self) -> (r: i64) {
        self.start_date
    }

    fn set_path(&mut self, p: String) {
        self.path = p;
    }
}

/// Only conferences whose recording link is published are polled.
pub fn published_conferences(conferences: Vec<Conference>) -> (r: Vec<Conference>)
    ensures
        forall|k: int| 0 <= k < r@.len() ==> (#[trigger] r@[k]).is_publish_record_url,
        forall|k: int|
            0 <= k < r@.len() ==> conferences@.contains(#[trigger] r@[k]),
        forall|x: Conference|
            conferences@.contains(x) && x.is_publish_record_url ==> r@.contains(x),
{
    let mut r: Vec<Conference> = Vec::new();
    let mut k: usize = 0;
    while k < conferences.len()
        invariant
            0 <= k <= conferences@.len(),
            forall|j: int| 0 <= j < r@.len() ==> (#[trigger] r@[j]).is_publish_record_url,
            forall|j: int| 0 <= j < r@.len() ==> conferences@.contains(#[trigger] r@[j]),
            forall|j: int|
                0 <= j < k && conferences@[j].is_publish_record_url ==> r@.contains(
                    conferences@[j],
                ),
        decreases conferences@.len() - k,
    {
        let ghost pre = r@;
        if conferences[k].is_publish_record_url {
            let c = &conferences[k];
            r.push(
                Conference {
                    id: c.id.clone(),
                    name: c.name.clone(),
                    start_date: c.start_date.clone(),
                    is_publish_record_url: c.is_publish_record_url,
                },
            );
            proof {
                assert(conferences@.contains(conferences@[k as int]));
                assert(r@[r@.len() - 1] == conferences@[k as int]);
                assert(forall|j: int| 0 <= j < pre.len() ==> r@[j] == pre[j]);
                assert forall|j: int|
                    0 <= j < k + 1 && conferences@[j].is_publish_record_url implies r@.contains(
                    conferences@[j],
                ) by {
                    if j < k {
                        let a = choose|a: int| 0 <= a < pre.len() && pre[a] == conferences@[j];
                        assert(r@[a] == conferences@[j]);
                    }
                }
            }
        }
        k = k + 1;
    }
    r
}

/// What the cloud-record poll does with one response body's code: a body
/// code 400 is the rate limiter and is always retried; a body code 404 is
/// retried until five polls have seen it, then the conference is taken to
/// have no recording; anything else is accepted.
#[derive(Copy, Clone, PartialEq, Eq, Structural, Debug)]
pub enum CloudRecordStep {
    Accept,
    RetryRateLimited,
    Retry404,
    NoRecording,
}

/// Decide one step of the cloud-record poll; `polls_404` counts the polls
/// that already saw a 404 body.
pub fn cloud_record_step(code: Option<u32>, polls_404: u32) -> (r: CloudRecordStep)
    ensures
        code == Some(400u32) ==> r == CloudRecordStep::RetryRateLimited,
        code == Some(404u32) && polls_404 < 4 ==> r == CloudRecordStep::Retry404,
        code == Some(404u32) && polls_404 >= 4 ==> r == CloudRecordStep::NoRecording,
        (match code {
            Some(c) => c != 400 && c != 404,
            None => true,
        }) ==> r == CloudRecordStep::Accept,
{
    match code {
        Some(400u32) => CloudRecordStep::RetryRateLimited,
        Some(404u32) => {
            if polls_404 < 4 {
                CloudRecordStep::Retry404
            } else {
                CloudRecordStep::NoRecording
            }
        },
        _ => CloudRecordStep::Accept,
    }
}

/// How the cloud-record poll ends on a transcript of body codes.
#[derive(Copy, Clone, PartialEq, Eq, Structural, Debug)]
pub enum CloudRecordOutcome {
    /// The response at this index (counting from zero) was accepted.
    AcceptedAt(usize),
    /// Five polls saw a 404 body; the conference has no recording.
    GaveUp404,
    /// The transcript ended while the poll would have gone on.
    Pending,
}

/// The poll's end on a transcript of body codes, with `polls_404` polls
/// having seen a 404 already and `at` responses consumed.
pub open spec fn spec_cloud_record_poll(codes: Seq<Option<u32>>, polls_404: int, at: int) -> CloudRecordOutcome
    decreases codes.len(),
{
    if codes.len() == 0 {
        CloudRecordOutcome::Pending
    } else {
        match codes[0] {
            Some(400u32) => spec_cloud_record_poll(
                codes.subrange(1, codes.len() as int),
                polls_404,
                at + 1,
            ),
            Some(404u32) => {
                if polls_404 < 4 {
                    spec_cloud_record_poll(
                        codes.subrange(1, codes.len() as int),
                        polls_404 + 1,
                        at + 1,
                    )
                } else {
                    CloudRecordOutcome::GaveUp404
                }
            },
            _ => CloudRecordOutcome::AcceptedAt(at as usize),
        }
    }
}

/// Run the cloud-record poll over a finite transcript of body codes,
/// returning its outcome and how many responses it consumed.
pub fn drive_cloud_record_poll(codes: &Vec<Option<u32>>) -> (r: (usize, CloudRecordOutcome))
    requires
        codes@.len() < 0x1000_0000,
    ensures
        r.1 == spec_cloud_record_poll(codes@, 0, 0),
        r.1 is Pending ==> r.0 == codes@.len(),
        !(r.1 is Pending) ==> r.0 <= codes@.len(),
{
    let mut polls_404: u32 = 0;
    let mut i: usize = 0;
    proof {
        assert(codes@.subrange(0, codes@.len() as int) =~= codes@);
    }
    while i < codes.len()
        invariant
            codes@.len() < 0x1000_0000,
            0 <= i <= codes@.len(),
            polls_404 <= i,
            spec_cloud_record_poll(codes@, 0, 0) == spec_cloud_record_poll(
                codes@.subrange(i as int, codes@.len() as int),
                polls_404 as int,
                i as int,
            ),
        decreases codes@.len() - i,
    {
        let ghost rest = codes@.subrange(i as int, codes@.len() as int);
        proof {
            assert(rest[0] == codes@[i as int]);
            assert(rest.subrange(1, rest.len() as int) =~= codes@.subrange(
                i + 1,
                codes@.len() as int,
            ));
        }
        match cloud_record_step(codes[i], polls_404) {
            CloudRecordStep::Accept => {
                return (i + 1, CloudRecordOutcome::AcceptedAt(i));
            },
            CloudRecordStep::RetryRateLimited => {},
            CloudRecordStep::Retry404 => {
                polls_404 = polls_404 + 1;
            },
            CloudRecordStep::NoRecording => {
                return (i + 1, CloudRecordOutcome::GaveUp404);
            },
        }
        i = i + 1;
    }
    proof {
        assert(codes@.subrange(codes@.len() as int, codes@.len() as int) =~= Seq::<
            Option<u32>,
        >::empty());
    }
    (i, CloudRecordOutcome::Pending)
}

/// On a transcript of nothing but 404 bodies, the poll gives up after
/// exactly five of them and reports no recording.
pub proof fn lemma_cloud_record_gives_up_after_five(codes: Seq<Option<u32>>)
    requires
        codes.len() >= 5,
        forall|j: int| 0 <= j < codes.len() ==> codes[j] == Some(404u32),
    ensures
        spec_cloud_record_poll(codes, 0, 0) == CloudRecordOutcome::GaveUp404,
{
    lemma_cloud_record_404_steps(codes, 0, 0);
}

proof fn lemma_cloud_record_404_steps(codes: Seq<Option<u32>>, polls_404: int, at: int)
    requires
        0 <= polls_404 <= 4,
        codes.len() >= 5 - polls_404,
        forall|j: int| 0 <= j < codes.len() ==> codes[j] == Some(404u32),
    ensures
        spec_cloud_record_poll(codes, polls_404, at) == CloudRecordOutcome::GaveUp404,
    decreases codes.len(),
{
    if polls_404 < 4 {
        let t = codes.subrange(1, codes.len() as int);
        assert(forall|j: int| 0 <= j < t.len() ==> t[j] == codes[j + 1]);
        lemma_cloud_record_404_steps(t, polls_404 + 1, at + 1);
    }
}

/// Rate limiting never exhausts the poll: on a transcript of nothing but
/// 400 bodies it neither accepts nor gives up, however long the transcript.
pub proof fn lemma_cloud_record_400_keeps_trying(codes: Seq<Option<u32>>, polls_404: int, at: int)
    requires
        forall|j: int| 0 <= j < codes.len() ==> codes[j] == Some(400u32),
    ensures
        spec_cloud_record_poll(codes, polls_404, at) == CloudRecordOutcome::Pending,
    decreases codes.len(),
{
    if codes.len() > 0 {
        let t = codes.subrange(1, codes.len() as int);
        assert(forall|j: int| 0 <= j < t.len() ==> t[j] == codes[j + 1]);
        lemma_cloud_record_400_keeps_trying(t, polls_404, at + 1);
    }
}

/// The recordings of one conference: a single instance keeps the sanitized
/// conference name with the `mp4` extension; several instances gain ` (1)`,
/// ` (2)`, and so on, before the extension.  A start date that does not
/// parse fails the conference.
pub fn zoom_recordings(
    conference: &Conference,
    instances: &Vec<CloudRecordInstance>,
    dir_path: &str,
) -> (r: Result<Vec<ZoomRecording>, crate::Error>)
    requires
        instances@.len() < 0x1000_0000,
    ensures
        match r {
            Ok(recs) => rfc3339_millis(conference.start_date@) is Some && recs@.len()
                == instances@.len() && forall|k: int|
                0 <= k < recs@.len() ==> {
                    let v = (#[trigger] recs@[k])@;
                    v.id == conference.id@ && v.share_url == instances@[k].share_url@ && v.password
                        == instances@[k].password@ && Some(v.start_date) == rfc3339_millis(
                        conference.start_date@,
                    ) && v.path == crate::file::spec_path_join(
                        dir_path@,
                        spec_with_mp4_extension(
                            if instances@.len() == 1 {
                                spec_sanitise(conference.name@)
                            } else {
                                spec_append_number(
                                    spec_sanitise(conference.name@),
                                    (k + 1) as nat,
                                )
                            },
                        ),
                    )
                },
            Err(e) => e == "Failed to parse last updated time" && rfc3339_millis(
                conference.start_date@,
            ) is None,
        },
{
    let start_date = match crate::util::parse_time(conference.start_date.as_str()) {
        Some(t) => t,
        None => {
            return Err("Failed to parse last updated time");
        },
    };
    let clean = crate::util::sanitise_filename(conference.name.as_str());
    let mut recs: Vec<ZoomRecording> = Vec::new();
    let single = instances.len() == 1;
    let mut k: usize = 0;
    while k < instances.len()
        invariant
            instances@.len() < 0x1000_0000,
            0 <= k <= instances@.len(),
            recs@.len() == k,
            single == (instances@.len() == 1),
            clean@ == spec_sanitise(conference.name@),
            Some(start_date as int) == rfc3339_millis(conference.start_date@),
            forall|j: int|
                0 <= j < k ==> {
                    let v = (#[trigger] recs@[j])@;
                    v.id == conference.id@ && v.share_url == instances@[j].share_url@ && v.password
                        == instances@[j].password@ && Some(v.start_date) == rfc3339_millis(
                        conference.start_date@,
                    ) && v.path == crate::file::spec_path_join(
                        dir_path@,
                        spec_with_mp4_extension(
                            if instances@.len() == 1 {
                                spec_sanitise(conference.name@)
                            } else {
                                spec_append_number(
                                    spec_sanitise(conference.name@),
                                    (j + 1) as nat,
                                )
                            },
                        ),
                    )
                },
        decreases instances@.len() - k,
    {
        let named = if single {
            crate::util::make_mp4_extension(clean.as_str())
        } else {
            let numbered = crate::util::append_number(clean.as_str(), (k + 1) as u64);
            crate::util::make_mp4_extension(numbered.as_str())
        };
        let path = crate::file::path_join(dir_path, named.as_str());
        let inst = &instances[k];
        recs.push(
            ZoomRecording {
                id: conference.id.clone(),
                path,
                share_url: inst.share_url.clone(),
                password: inst.password.clone(),
                start_date,
            },
        );
        k = k + 1;
    }
    Ok(recs)
}

/// A share link that lands under `/rec/share` is password-protected.
pub fn zoom_needs_password(response_url_path: &str) -> (r: bool)
    ensures
        r == starts_with(response_url_path@, "/rec/share"@),
{
    crate::api::str_starts_with(response_url_path, "/rec/share")
}

/// The share page names the conference in its `meetId` element.
pub fn zoom_extract_meet_id(html: &str) -> (r: Result<String, crate::Error>)
    ensures
        match crate::api::element_value_by_id(html@, "meetId"@) {
            Some(v) => r is Ok && r->Ok_0@ == v,
            None => r == Result::<String, crate::Error>::Err("Unable to find conference id"),
        },
{
    proof {
        reveal_strlit("meetId");
    }
    match crate::api::find_element_value_by_id(html, "meetId") {
        Some(v) => Ok(v),
        None => Err("Unable to find conference id"),
    }
}

/// The form of the recording-password POST.
pub fn zoom_password_form(meet_id: &str, password: &str) -> (r: Vec<(String, String)>)
    ensures
        r@.len() == 4,
        r@[0].0@ == "id"@ && r@[0].1@ == meet_id@,
        r@[1].0@ == "passwd"@ && r@[1].1@ == password@,
        r@[2].0@ == "action"@ && r@[2].1@ == "viewdetailpage"@,
        r@[3].0@ == "recaptcha"@ && r@[3].1@ == ""@,
{
    let mut r: Vec<(String, String)> = Vec::new();
    r.push((String::from_str("id"), String::from_str(meet_id)));
    r.push((String::from_str("passwd"), String::from_str(password)));
    r.push((String::from_str("action"), String::from_str("viewdetailpage")));
    r.push((String::from_str("recaptcha"), String::from_str("")));
    r
}

/// Judge the password validation response: its JSON `status` must be true.
pub fn zoom_validation_ok(body: &str) -> (r: Result<(), crate::Error>)
    ensures
        match crate::api::json_boolean_field(body@, "status"@) {
            Some(true) => r is Ok,
            Some(false) => r == Result::<(), crate::Error>::Err(
                "Recording password was rejected by Zoom",
            ),
            None => r == Result::<(), crate::Error>::Err(
                "Unable to parse response JSON from Zoom validation",
            ),
        },
{
    proof {
        reveal_strlit("status");
    }
    match crate::api::json_bool_field(body, "status") {
        Some(true) => Ok(()),
        Some(false) => Err("Recording password was rejected by Zoom"),
        None => Err("Unable to parse response JSON from Zoom validation"),
    }
}

/// After a validated password, the share link must lead away from
/// `/rec/share`; landing there again means the password was not accepted.
pub fn zoom_after_password_check(response_url_path: &str) -> (r: Result<(), crate::Error>)
    ensures
        starts_with(response_url_path@, "/rec/share"@) ==> r == Result::<(), crate::Error>::Err(
            "Zoom still wants a password even though we already supplied it",
        ),
        !starts_with(response_url_path@, "/rec/share"@) ==> r is Ok,
{
    if crate::api::str_starts_with(response_url_path, "/rec/share") {
        Err("Zoom still wants a password even though we already supplied it")
    } else {
        Ok(())
    }
}

/// The MP4 URL embedded in the video page: the text between the single
/// quotes that follow the first `viewMp4Url:` marker and any whitespace.
pub open spec fn spec_view_mp4_url(html: Seq<char>) -> Option<Seq<char>> {
    match find_str(html, "viewMp4Url:"@) {
        None => None,
        Some(i) => {
            let after = trim_start_rec(
                html.subrange(i + "viewMp4Url:"@.len(), html.len() as int),
            );
            if after.len() > 0 && after[0] == '\u{27}' {
                let quoted = after.subrange(1, after.len() as int);
                match find_char(quoted, '\u{27}') {
                    Some(j) => Some(quoted.subrange(0, j)),
                    None => None,
                }
            } else {
                None
            }
        },
    }
}

/// Extract the MP4 URL from the video page, as the page's embedded player
/// script holds it: the single-quoted text after the first `viewMp4Url:`.
pub fn extract_view_mp4_url(html: &str) -> (r: Result<String, crate::Error>)
    ensures
        match spec_view_mp4_url(html@) {
            Some(u) => r is Ok && r->Ok_0@ == u,
            None => r == Result::<String, crate::Error>::Err("Parse error"),
        },
{
    proof {
        reveal_strlit("viewMp4Url:");
    }
    let len = html.unicode_len();
    let i = match crate::util::find_str_exec(html, "viewMp4Url:") {
        Some(i) => i,
        None => {
            return Err("Parse error");
        },
    };
    let after_start = i + 11;
    proof {
        assert("viewMp4Url:"@.len() == 11);
    }
    let ghost after_seq = html@.subrange(after_start as int, len as int);
    let mut p: usize = after_start;
    while p < len && crate::util::is_space_char_exec(html.get_char(p))
        invariant
            len == html@.len(),
            after_start <= p <= len,
            after_seq == html@.subrange(after_start as int, len as int),
            forall|j: int|
                after_start <= j < p ==> crate::util::is_space_char(html@[j]),
        decreases len - p,
    {
        p = p + 1;
    }
    proof {
        assert(forall|j: int|
            0 <= j < p - after_start ==> after_seq[j] == html@[after_start + j]);
        if (p as int) - (after_start as int) < after_seq.len() {
            assert(after_seq[p - after_start] == html@[p as int]);
        }
        crate::util::lemma_trim_start_at(after_seq, p - after_start);
        assert(trim_start_rec(after_seq) =~= html@.subrange(p as int, len as int));
    }
    if p >= len {
        return Err("Parse error");
    }
    if html.get_char(p) != '\u{27}' {
        return Err("Parse error");
    }
    let quoted = html.substring_char(p + 1, len);
    proof {
        assert(quoted@ =~= trim_start_rec(after_seq).subrange(
            1,
            trim_start_rec(after_seq).len() as int,
        ));
    }
    match crate::util::find_char_exec(quoted, '\u{27}') {
        Some(j) => {
            let mut r = String::new();
            r.append(quoted.substring_char(0, j));
            proof {
                assert(r@ =~= spec_view_mp4_url(html@)->Some_0);
            }
            Ok(r)
        },
        None => Err("Parse error"),
    }
}

} // verus!
