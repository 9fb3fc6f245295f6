use fluminurs::conferencing::{cloud_record_step, drive_cloud_record_poll, extract_view_mp4_url,
    published_conferences, zoom_after_password_check, zoom_extract_meet_id, zoom_needs_password,
    zoom_password_form, zoom_recordings, zoom_validation_ok, CloudRecordInstance,
    CloudRecordOutcome, CloudRecordStep, Conference, ConferencingHandle};
use fluminurs::resource::Resource;

fn conference(id: &str, name: &str, published: bool) -> Conference {
    Conference {
        id: id.to_string(),
        name: name.to_string(),
        start_date: "2024-03-01T12:00:00Z".to_string(),
        is_publish_record_url: published,
    }
}

#[test]
fn only_published_conferences_are_polled() {
    let all = vec![conference("1", "a", true), conference("2", "b", false), conference("3", "c", true)];
    let polled = published_conferences(all);
    let ids: Vec<&str> = polled.iter().map(|c| c.id.as_str()).collect();
    assert_eq!(ids, vec!["1", "3"]);
}

#[test]
fn poll_gives_up_after_exactly_five_missing_bodies() {
    // nothing but 404 bodies: five polls, then "no recording"
    let codes = vec![Some(404u32); 8];
    let (attempts, outcome) = drive_cloud_record_poll(&codes);
    assert_eq!(outcome, CloudRecordOutcome::GaveUp404);
    assert_eq!(attempts, 5);
}

#[test]
fn poll_never_gives_up_on_rate_limiting() {
    // nothing but 400 bodies: the poll keeps trying for the whole transcript
    let codes = vec![Some(400u32); 50];
    let (attempts, outcome) = drive_cloud_record_poll(&codes);
    assert_eq!(outcome, CloudRecordOutcome::Pending);
    assert_eq!(attempts, 50);
}

#[test]
fn poll_accepts_first_usable_body() {
    let codes = vec![Some(400u32), Some(404u32), None, Some(404u32)];
    let (attempts, outcome) = drive_cloud_record_poll(&codes);
    assert_eq!(outcome, CloudRecordOutcome::AcceptedAt(2));
    assert_eq!(attempts, 3);
    assert_eq!(cloud_record_step(Some(200), 0), CloudRecordStep::Accept);
    assert_eq!(cloud_record_step(Some(400), 3), CloudRecordStep::RetryRateLimited);
    assert_eq!(cloud_record_step(Some(404), 3), CloudRecordStep::Retry404);
    assert_eq!(cloud_record_step(Some(404), 4), CloudRecordStep::NoRecording);
}

#[test]
fn single_recording_keeps_clean_name() {
    let c = conference("conf9", "Week 7 Lecture", true);
    let instances = vec![CloudRecordInstance {
        share_url: "https://nus-sg.zoom.us/rec/share/abc".to_string(),
        password: "pw".to_string(),
    }];
    let recs = zoom_recordings(&c, &instances, "CS1/Conferences").unwrap();
    assert_eq!(recs.len(), 1);
    assert_eq!(recs[0].path, "CS1/Conferences/Week 7 Lecture.mp4");
    assert_eq!(recs[0].id, "conf9");
    assert_eq!(recs[0].start_date, 1709294400000);
    assert_eq!(recs[0].share_url, "https://nus-sg.zoom.us/rec/share/abc");
}

#[test]
fn several_recordings_gain_counters() {
    let c = conference("conf9", "Week 7 Lecture", true);
    let inst = |u: &str| CloudRecordInstance { share_url: u.to_string(), password: String::new() };
    let instances = vec![inst("u1"), inst("u2"), inst("u3")];
    let recs = zoom_recordings(&c, &instances, "CS1/Conferences").unwrap();
    let paths: Vec<&str> = recs.iter().map(|r| r.path.as_str()).collect();
    assert_eq!(
        paths,
        vec![
            "CS1/Conferences/Week 7 Lecture (1).mp4",
            "CS1/Conferences/Week 7 Lecture (2).mp4",
            "CS1/Conferences/Week 7 Lecture (3).mp4",
        ]
    );
}

#[test]
fn bad_start_date_fails_the_conference() {
    let mut c = conference("conf9", "n", true);
    c.start_date = "yesterday".to_string();
    let result = zoom_recordings(&c, &Vec::new(), "d");
    assert_eq!(result.unwrap_err(), "Failed to parse last updated time");
}

#[test]
fn password_flow_pieces() {
    assert!(zoom_needs_password("/rec/share/xyz"));
    assert!(!zoom_needs_password("/rec/play/xyz"));
    let form = zoom_password_form("9001", "s3cret");
    assert_eq!(form[0], ("id".to_string(), "9001".to_string()));
    assert_eq!(form[1], ("passwd".to_string(), "s3cret".to_string()));
    assert_eq!(form[2], ("action".to_string(), "viewdetailpage".to_string()));
    assert_eq!(form[3], ("recaptcha".to_string(), "".to_string()));
    assert_eq!(zoom_after_password_check("/rec/play/xyz"), Ok(()));
    assert_eq!(
        zoom_after_password_check("/rec/share/xyz"),
        Err("Zoom still wants a password even though we already supplied it")
    );
}

#[test]
fn meet_id_is_scraped_from_share_page() {
    let html = "<html><input id=\"meetId\" type=\"hidden\" value=\"9001\"/></html>";
    assert_eq!(zoom_extract_meet_id(html), Ok("9001".to_string()));
    assert_eq!(zoom_extract_meet_id("<html></html>"), Err("Unable to find conference id"));
}

#[test]
fn validation_response_judgement() {
    assert_eq!(zoom_validation_ok("{\"status\":true,\"errorCode\":0}"), Ok(()));
    assert_eq!(
        zoom_validation_ok("{\"status\":false}"),
        Err("Recording password was rejected by Zoom")
    );
    assert_eq!(
        zoom_validation_ok("<html>not json</html>"),
        Err("Unable to parse response JSON from Zoom validation")
    );
}

#[test]
fn mp4_url_is_extracted_from_player_script() {
    let html = "<script>var a=1; viewMp4Url: 'https://ssrweb.zoom.us/video.mp4?tk=1', next: 2</script>";
    assert_eq!(
        extract_view_mp4_url(html),
        Ok("https://ssrweb.zoom.us/video.mp4?tk=1".to_string())
    );
    let spaced = "viewMp4Url:\n\t'u.mp4'";
    assert_eq!(extract_view_mp4_url(spaced), Ok("u.mp4".to_string()));
    assert_eq!(extract_view_mp4_url("<p>no marker</p>"), Err("Parse error"));
    assert_eq!(extract_view_mp4_url("viewMp4Url: \"wrongquote\""), Err("Parse error"));
}

#[test]
fn recording_resource_interface() {
    let c = conference("conf9", "L", true);
    let instances = vec![CloudRecordInstance { share_url: "u".to_string(), password: "p".to_string() }];
    let mut rec = zoom_recordings(&c, &instances, "d").unwrap().remove(0);
    assert_eq!(rec.id(), "conf9");
    assert_eq!(rec.last_updated(), 1709294400000);
    rec.set_path("d/other.mp4".to_string());
    assert_eq!(rec.path(), "d/other.mp4");
    let handle = ConferencingHandle::new("m1".to_string(), "CS1/Conferences".to_string());
    assert_eq!(handle.id, "m1");
    assert_eq!(handle.path, "CS1/Conferences");
}
