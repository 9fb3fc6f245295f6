use fluminurs::resource::RetryableError;
use fluminurs::streamer::{combine_stream_results, ffmpeg_mux_args, ffmpeg_outcome,
    ffmpeg_stream_args, make_temp_file_path, make_temp_stream_file_name, StreamSpec};

fn stream(url: &str, offset: &str) -> StreamSpec {
    StreamSpec { stream_url_path: url.to_string(), offset_seconds_text: offset.to_string() }
}

#[test]
fn temp_names_prefix_the_filename() {
    assert_eq!(make_temp_file_path("out/CS1/lecture.pdf"), "out/CS1/~!lecture.pdf");
    assert_eq!(make_temp_file_path("bare.mp4"), "~!bare.mp4");
    assert_eq!(make_temp_stream_file_name("out/w.mp4", 0), "out/~!0~!w.mp4");
    assert_eq!(make_temp_stream_file_name("out/w.mp4", 1), "out/~!1~!w.mp4");
}

#[test]
fn single_stream_invocation() {
    let args = ffmpeg_stream_args("https://host/x.m3u8", "out/~!w.mp4");
    assert_eq!(args, vec!["-y", "-i", "https://host/x.m3u8", "-c", "copy", "out/~!w.mp4"]);
}

#[test]
fn two_streams_are_muxed_with_offsets() {
    // a web lecture with two streams at offsets 0 and 3.5 seconds
    let streams = vec![stream("urlA", "0"), stream("urlB", "3.5")];
    let temps = vec!["out/~!0~!w.mp4".to_string(), "out/~!1~!w.mp4".to_string()];
    let args = ffmpeg_mux_args(&streams, &temps, "out/~!w.mp4");
    assert_eq!(
        args,
        vec![
            "-y", "-itsoffset", "0", "-i", "out/~!0~!w.mp4", "-itsoffset", "3.5", "-i",
            "out/~!1~!w.mp4", "-map", "0", "-map", "1", "-c", "copy", "out/~!w.mp4",
        ]
    );
}

#[test]
fn muxer_outcome_judgement() {
    assert_eq!(ffmpeg_outcome(false, false), Err(RetryableError::Fail("Failed to start ffmpeg")));
    assert_eq!(
        ffmpeg_outcome(true, false),
        Err(RetryableError::Retry("ffmpeg returned nonzero exit code"))
    );
    assert_eq!(ffmpeg_outcome(true, true), Ok(()));
}

#[test]
fn sub_download_results_combine_with_fail_first() {
    let ok: Vec<Result<(), RetryableError>> = vec![Ok(()), Ok(())];
    assert_eq!(combine_stream_results(&ok), Ok(()));
    let with_retry = vec![Ok(()), Err(RetryableError::Retry("net"))];
    assert_eq!(combine_stream_results(&with_retry), Err(RetryableError::Retry("net")));
    // a permanent failure wins over an earlier transient one
    let with_fail = vec![Err(RetryableError::Retry("net")), Err(RetryableError::Fail("disk"))];
    assert_eq!(combine_stream_results(&with_fail), Err(RetryableError::Fail("disk")));
}
