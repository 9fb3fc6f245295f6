use fluminurs::external_multimedia::{external_viewer_videos_from, ExternalMultimediaHandle,
    ExternalViewerSession};
use fluminurs::file::{path_join, require_api_data, DirectoryHandle, FileEntry};
use fluminurs::multimedia::external_multimedia::{external_videos_from, panopto_folder_id,
    ExternalSession};
use fluminurs::multimedia::{internal_videos_from, Channel, InternalMedia, MultimediaHandle};
use fluminurs::panopto::{launch_form, make_delivery_info_post_data, stream_specs_from,
    viewer_delivery_id, DeliveryStream, PanoptoQueryParameter};
use fluminurs::weblecture::{WebLectureHandle, WebLectureMedia};

fn entry(id: &str, name: &str) -> FileEntry {
    FileEntry {
        id: id.to_string(),
        name: name.to_string(),
        file_name: None,
        allow_upload: None,
        creator_name: None,
        creator_user_id: None,
        last_updated_date: "2024-03-01T12:00:00Z".to_string(),
    }
}

#[test]
fn path_join_handles_empty_directory() {
    assert_eq!(path_join("", "x.pdf"), "x.pdf");
    assert_eq!(path_join("CS1", "x.pdf"), "CS1/x.pdf");
}

#[test]
fn require_api_data_signals_type_mismatch() {
    assert_eq!(require_api_data(Some(5)), Ok(5));
    assert_eq!(
        require_api_data::<u32>(None),
        Err("Invalid API response from server: type mismatch")
    );
}

#[test]
fn plain_files_use_sanitized_download_name() {
    let dir = DirectoryHandle::new("d1".to_string(), "CS1".to_string());
    let mut e = entry("f1", "listed name");
    e.file_name = Some("real/name.pdf".to_string());
    let files = dir.files_from_entries(&vec![e], false).unwrap();
    assert_eq!(files.len(), 1);
    assert_eq!(files[0].id, "f1");
    assert_eq!(files[0].path, "CS1/real-name.pdf");
    assert_eq!(files[0].last_updated, 1709294400000);
}

#[test]
fn submission_files_gain_creator_prefix() {
    let dir = DirectoryHandle { id: "d1".to_string(), path: "CS1/sub".to_string(), allow_upload: true };
    let mut e = entry("f1", "essay.pdf");
    e.creator_name = Some("Ada L.".to_string());
    e.creator_user_id = Some("e0000001".to_string());
    let by_name = dir.files_from_entries(&vec![e.clone()], false).unwrap();
    assert_eq!(by_name[0].path, "CS1/sub/Ada L. - essay.pdf");
    let regularized = dir.files_from_entries(&vec![e], true).unwrap();
    assert_eq!(regularized[0].path, "CS1/sub/e0000001.pdf");
    let mut anonymous = entry("f2", "essay.pdf");
    anonymous.creator_name = None;
    let unknown = dir.files_from_entries(&vec![anonymous], false).unwrap();
    assert_eq!(unknown[0].path, "CS1/sub/Unknown - essay.pdf");
}

#[test]
fn bad_file_date_fails_the_listing() {
    let dir = DirectoryHandle::new("d1".to_string(), "CS1".to_string());
    let mut e = entry("f1", "a.pdf");
    e.last_updated_date = "soon".to_string();
    assert_eq!(
        dir.files_from_entries(&vec![e], false).unwrap_err(),
        "Failed to parse last updated time"
    );
}

#[test]
fn uploadable_subdirectories_are_pruned_unless_included() {
    let dir = DirectoryHandle::new("d1".to_string(), "CS1".to_string());
    let mut open_dir = entry("c1", "Lectures");
    open_dir.allow_upload = Some(false);
    let mut submissions = entry("c2", "Submissions");
    submissions.allow_upload = Some(true);
    let entries = vec![open_dir, submissions];
    let pruned = dir.child_directories(&entries, false);
    assert_eq!(pruned.len(), 1);
    assert_eq!(pruned[0].path, "CS1/Lectures");
    assert!(!pruned[0].allow_upload);
    let kept = dir.child_directories(&entries, true);
    assert_eq!(kept.len(), 2);
    assert_eq!(kept[1].path, "CS1/Submissions");
    assert!(kept[1].allow_upload);
}

#[test]
fn internal_videos_skip_items_without_stream() {
    let media = |id: &str, name: &str, stream: Option<&str>| InternalMedia {
        id: id.to_string(),
        name: name.to_string(),
        last_updated_date: "2024-03-01T12:00:00Z".to_string(),
        stream_url_path: stream.map(|s| s.to_string()),
    };
    let handle = MultimediaHandle::new("m1".to_string(), "CS1/Multimedia".to_string());
    let channel = Channel { id: "ch1".to_string(), name: "Screen/casts".to_string(), is_external_tool: false };
    let channel_path = handle.channel_path(&channel);
    assert_eq!(channel_path, "CS1/Multimedia/Screen-casts");
    let medias = vec![
        media("v1", "intro.webm", Some("stream/1.m3u8")),
        media("x1", "slides only", None),
        media("v2", "outro", Some("stream/2.m3u8")),
    ];
    let videos = internal_videos_from(&channel_path, &medias).unwrap();
    assert_eq!(videos.len(), 2);
    assert_eq!(videos[0].id, "v1");
    assert_eq!(videos[0].path, "CS1/Multimedia/Screen-casts/intro.mp4");
    assert_eq!(videos[0].stream_url_path, "stream/1.m3u8");
    assert_eq!(videos[1].path, "CS1/Multimedia/Screen-casts/outro.mp4");
    let bad = vec![InternalMedia {
        id: "v".to_string(),
        name: "n".to_string(),
        last_updated_date: "bad".to_string(),
        stream_url_path: Some("s".to_string()),
    }];
    assert_eq!(internal_videos_from("p", &bad).unwrap_err(), "Failed to parse last updated time");
}

#[test]
fn external_sessions_become_mp4_videos() {
    let sessions = vec![ExternalSession {
        delivery_id: "dlv-1".to_string(),
        session_name: "Lecture 1".to_string(),
    }];
    let videos = external_videos_from("CS1/Multimedia/Panopto", &sessions);
    assert_eq!(videos[0].id, "dlv-1");
    assert_eq!(videos[0].path, "CS1/Multimedia/Panopto/Lecture 1.mp4");
    let viewer_sessions = vec![ExternalViewerSession {
        viewer_url: "https://mediaweb.ap.panopto.com/Viewer?id=dlv-1".to_string(),
        session_name: "Lecture 1".to_string(),
    }];
    let by_page = external_viewer_videos_from("CS1", &viewer_sessions);
    assert_eq!(by_page[0].html_url, "https://mediaweb.ap.panopto.com/Viewer?id=dlv-1");
    assert_eq!(by_page[0].path(), "CS1/Lecture 1.mp4");
    assert_eq!(by_page[0].get_last_updated(), 0);
    let handle = ExternalMultimediaHandle::new("m1".to_string(), "CS1".to_string());
    assert_eq!(handle.id, "m1");
}

#[test]
fn folder_id_is_unquoted_from_the_fragment() {
    assert_eq!(panopto_folder_id("folderID=%22abc-def%22"), Ok("abc-def".to_string()));
    assert_eq!(
        panopto_folder_id("folderID=unquoted"),
        Err("Cannot parse external multimedia folder ID")
    );
    assert_eq!(
        panopto_folder_id("other=1"),
        Err("Failed to decode external multimedia request query parameters to get folder ID")
    );
}

#[test]
fn delivery_info_form_is_fixed() {
    let form = make_delivery_info_post_data("dlv-9");
    assert_eq!(form.len(), 9);
    assert_eq!(form[0], ("deliveryId".to_string(), "dlv-9".to_string()));
    assert_eq!(form[3], ("refreshAuthCookie".to_string(), "true".to_string()));
    assert_eq!(form[8], ("responseType".to_string(), "json".to_string()));
}

#[test]
fn launch_form_copies_signed_fields() {
    let items = vec![PanoptoQueryParameter { key: "oauth_nonce".to_string(), value: "n".to_string() }];
    let form = launch_form(&items);
    assert_eq!(form, vec![("oauth_nonce".to_string(), "n".to_string())]);
}

#[test]
fn delivery_streams_become_specs() {
    let streams = vec![
        DeliveryStream { relative_start_text: "0".to_string(), stream_url: "urlA".to_string() },
        DeliveryStream { relative_start_text: "3.5".to_string(), stream_url: "urlB".to_string() },
    ];
    let specs = stream_specs_from(&streams).unwrap();
    assert_eq!(specs.len(), 2);
    assert_eq!(specs[1].stream_url_path, "urlB");
    assert_eq!(specs[1].offset_seconds_text, "3.5");
    assert_eq!(stream_specs_from(&Vec::new()).unwrap_err(), "No streams available on DeliveryInfo");
}

#[test]
fn viewer_url_names_the_delivery() {
    assert_eq!(
        viewer_delivery_id("https://mediaweb.ap.panopto.com/Viewer.aspx?id=dlv-7&v=1"),
        Ok("dlv-7".to_string())
    );
    assert_eq!(
        viewer_delivery_id("https://mediaweb.ap.panopto.com/Viewer.aspx?v=1"),
        Err("Unable to get \"id\" query parameter of Panopto viewer")
    );
}

#[test]
fn weblecture_sessions_become_videos() {
    let handle = WebLectureHandle::new("m1".to_string(), "CS1/Web Lectures".to_string());
    let sessions = vec![WebLectureMedia {
        id: "wl1".to_string(),
        name: "Week 1".to_string(),
        last_updated_date: "2024-03-01T12:00:00Z".to_string(),
    }];
    let videos = handle.videos_from_sessions(&sessions).unwrap();
    assert_eq!(videos[0].module_id, "m1");
    assert_eq!(videos[0].id, "wl1");
    assert_eq!(videos[0].path, "CS1/Web Lectures/Week 1.mp4");
    assert_eq!(videos[0].last_updated, 1709294400000);
}
