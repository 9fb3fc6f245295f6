//! Building the stream muxer's invocations: temp-file names for the
//! sub-streams, the argument lists, and the combination of sub-download
//! outcomes.

use vstd::prelude::*;

use crate::resource::{last_component_start, RetryableError, RetryableResult};
use crate::util::spec_dec;

verus! {

/// One sub-stream of a web lecture: its manifest URL and its start offset,
/// in seconds, kept as the decimal text handed to the muxer.
#[derive(Clone, Debug)]
pub struct StreamSpec {
    pub stream_url_path: String,
    pub offset_seconds_text: String,
}

/// The mathematical content of a stream description.
pub struct StreamSpecView {
    pub stream_url_path: Seq<char>,
    pub offset_seconds_text: Seq<char>,
}

impl View for StreamSpec {
    type V = StreamSpecView;

    open spec fn view(&self) -> StreamSpecView {
        StreamSpecView {
            stream_url_path: self.stream_url_path@,
            offset_seconds_text: self.offset_seconds_text@,
        }
    }
}

/// A temporary file beside its target: the filename gains the `~!` prefix.
pub open spec fn spec_temp_file_path(p: Seq<char>) -> Seq<char> {
    let cs = last_component_start(p);
    p.subrange(0, cs) + seq!['~', '!'] + p.subrange(cs, p.len() as int)
}

/// The temporary path beside a destination: its filename prefixed by `~!`.
pub fn make_temp_file_path(path: &str) -> (r: String)
    ensures
        r@ == spec_temp_file_path(path@),
{
    let len = path.unicode_len();
    let cs: usize = match crate::util::rfind_char_exec(path, '/') {
        Some(i) => i + 1,
        None => 0,
    };
    let mut r = String::new();
    r.append(path.substring_char(0, cs));
    r.push('~');
    r.push('!');
    r.append(path.substring_char(cs, len));
    proof {
        assert(r@ =~= spec_temp_file_path(path@));
    }
    r
}

/// The temporary file of one sub-stream beside the target: the filename
/// gains a `~!<index>~!` prefix.
pub open spec fn spec_temp_stream_file_path(p: Seq<char>, index: nat) -> Seq<char> {
    let cs = last_component_start(p);
    p.subrange(0, cs) + seq!['~', '!'] + spec_dec(index) + seq!['~', '!'] + p.subrange(
        cs,
        p.len() as int,
    )
}

/// The temporary path of the `index`-th sub-stream of a multi-stream
/// download.
pub fn make_temp_stream_file_name(path: &str, index: u64) -> (r: String)
    ensures
        r@ == spec_temp_stream_file_path(path@, index as nat),
{
    let len = path.unicode_len();
    let cs: usize = match crate::util::rfind_char_exec(path, '/') {
        Some(i) => i + 1,
        None => 0,
    };
    let mut r = String::new();
    r.append(path.substring_char(0, cs));
    r.push('~');
    r.push('!');
    crate::util::push_dec(&mut r, index);
    r.push('~');
    r.push('!');
    r.append(path.substring_char(cs, len));
    proof {
        assert(r@ =~= spec_temp_stream_file_path(path@, index as nat));
    }
    r
}

/// The muxer's arguments for one stream: overwrite the output, copy the
/// codecs, read the manifest, write the destination.
pub fn ffmpeg_stream_args(stream_url_path: &str, temp_destination: &str) -> (r: Vec<String>)
    ensures
        r@.len() == 6,
        r@[0]@ == "-y"@,
        r@[1]@ == "-i"@,
        r@[2]@ == stream_url_path@,
        r@[3]@ == "-c"@,
        r@[4]@ == "copy"@,
        r@[5]@ == temp_destination@,
{
    let mut r: Vec<String> = Vec::new();
    r.push(String::from_str("-y"));
    r.push(String::from_str("-i"));
    r.push(String::from_str(stream_url_path));
    r.push(String::from_str("-c"));
    r.push(String::from_str("copy"));
    r.push(String::from_str(temp_destination));
    r
}

/// The per-stream input arguments of the muxer: for each sub-stream, its
/// offset and its temporary file.
pub open spec fn spec_mux_inputs(streams: Seq<StreamSpecView>, files: Seq<Seq<char>>) -> Seq<
    Seq<char>,
>
    decreases streams.len(),
{
    if streams.len() == 0 {
        Seq::<Seq<char>>::empty()
    } else {
        spec_mux_inputs(streams.drop_last(), files.drop_last()).push("-itsoffset"@).push(
            streams.last().offset_seconds_text,
        ).push("-i"@).push(files.last())
    }
}

/// The mapping arguments of the muxer: one `-map <i>` per input.
pub open spec fn spec_map_args(n: nat) -> Seq<Seq<char>>
    decreases n,
{
    if n == 0 {
        Seq::<Seq<char>>::empty()
    } else {
        spec_map_args((n - 1) as nat).push("-map"@).push(spec_dec((n - 1) as nat))
    }
}

/// The muxer's whole argument list for joining the downloaded sub-streams:
/// `-y`, then `-itsoffset <offset> -i <temp file>` per stream, then
/// `-map <i>` per input, then `-c copy <destination>`.
pub open spec fn spec_mux_args(
    streams: Seq<StreamSpecView>,
    files: Seq<Seq<char>>,
    dest: Seq<char>,
) -> Seq<Seq<char>> {
    seq!["-y"@] + spec_mux_inputs(streams, files) + spec_map_args(streams.len()) + seq![
        "-c"@,
        "copy"@,
        dest,
    ]
}

/// Build the muxer's arguments for joining the downloaded sub-streams.
pub fn ffmpeg_mux_args(
    streams: &Vec<StreamSpec>,
    temp_stream_files: &Vec<String>,
    temp_destination: &str,
) -> (r: Vec<String>)
    requires
        streams@.len() > 0,
        streams@.len() == temp_stream_files@.len(),
        streams@.len() < 0x1000_0000,
    ensures
        r@.map_values(|a: String| a@) == spec_mux_args(
            streams@.map_values(|t: StreamSpec| t@),
            temp_stream_files@.map_values(|f: String| f@),
            temp_destination@,
        ),
{
    let ghost svs = streams@.map_values(|t: StreamSpec| t@);
    let ghost fvs = temp_stream_files@.map_values(|f: String| f@);
    let n = streams.len();
    let mut r: Vec<String> = Vec::new();
    r.push(String::from_str("-y"));
    let mut k: usize = 0;
    proof {
        assert(svs.subrange(0, 0) =~= Seq::<StreamSpecView>::empty());
        assert(r@.map_values(|a: String| a@) =~= seq!["-y"@] + spec_mux_inputs(
            svs.subrange(0, 0),
            fvs.subrange(0, 0),
        ));
    }
    while k < n
        invariant
            svs == streams@.map_values(|t: StreamSpec| t@),
            fvs == temp_stream_files@.map_values(|f: String| f@),
            n == streams@.len() == temp_stream_files@.len(),
            0 <= k <= n,
            r@.map_values(|a: String| a@) == seq!["-y"@] + spec_mux_inputs(
                svs.subrange(0, k as int),
                fvs.subrange(0, k as int),
            ),
        decreases n - k,
    {
        let ghost r_pre = r@;
        r.push(String::from_str("-itsoffset"));
        r.push(String::from_str(streams[k].offset_seconds_text.as_str()));
        r.push(String::from_str("-i"));
        r.push(String::from_str(temp_stream_files[k].as_str()));
        proof {
            assert(svs.subrange(0, k + 1).drop_last() =~= svs.subrange(0, k as int));
            assert(fvs.subrange(0, k + 1).drop_last() =~= fvs.subrange(0, k as int));
            assert(svs.subrange(0, k + 1).last() == svs[k as int]);
            assert(fvs.subrange(0, k + 1).last() == fvs[k as int]);
            assert(svs[k as int] == streams@[k as int]@);
            assert(fvs[k as int] == temp_stream_files@[k as int]@);
            assert(r@.map_values(|a: String| a@) =~= r_pre.map_values(|a: String| a@) + seq![
                "-itsoffset"@,
                streams@[k as int]@.offset_seconds_text,
                "-i"@,
                temp_stream_files@[k as int]@,
            ]);
            assert(r@.map_values(|a: String| a@) =~= seq!["-y"@] + spec_mux_inputs(
                svs.subrange(0, k + 1),
                fvs.subrange(0, k + 1),
            ));
        }
        k = k + 1;
    }
    proof {
        assert(svs.subrange(0, n as int) =~= svs);
        assert(fvs.subrange(0, n as int) =~= fvs);
    }
    let mut k2: usize = 0;
    while k2 < n
        invariant
            svs == streams@.map_values(|t: StreamSpec| t@),
            fvs == temp_stream_files@.map_values(|f: String| f@),
            n == streams@.len() == temp_stream_files@.len(),
            0 <= k2 <= n,
            r@.map_values(|a: String| a@) == seq!["-y"@] + spec_mux_inputs(svs, fvs)
                + spec_map_args(k2 as nat),
        decreases n - k2,
    {
        let ghost r_pre = r@;
        r.push(String::from_str("-map"));
        r.push(crate::util::u64_to_dec(k2 as u64));
        proof {
            assert(r@.map_values(|a: String| a@) =~= r_pre.map_values(|a: String| a@) + seq![
                "-map"@,
                spec_dec(k2 as nat),
            ]);
            assert(r@.map_values(|a: String| a@) =~= seq!["-y"@] + spec_mux_inputs(svs, fvs)
                + spec_map_args((k2 + 1) as nat));
        }
        k2 = k2 + 1;
    }
    r.push(String::from_str("-c"));
    r.push(String::from_str("copy"));
    r.push(String::from_str(temp_destination));
    proof {
        assert(svs.len() == n);
        assert(r@.map_values(|a: String| a@) =~= spec_mux_args(svs, fvs, temp_destination@));
    }
    r
}

/// Judge one muxer run: a process that could not be spawned abandons the
/// resource, and a nonzero exit asks for a retry.
pub fn ffmpeg_outcome(spawn_ok: bool, exit_success: bool) -> (r: RetryableResult<()>)
    ensures
        !spawn_ok ==> r == RetryableResult::<()>::Err(RetryableError::Fail("Failed to start ffmpeg")),
        spawn_ok && !exit_success ==> r == RetryableResult::<()>::Err(
            RetryableError::Retry("ffmpeg returned nonzero exit code"),
        ),
        spawn_ok && exit_success ==> r is Ok,
{
    if !spawn_ok {
        Err(RetryableError::Fail("Failed to start ffmpeg"))
    } else if !exit_success {
        Err(RetryableError::Retry("ffmpeg returned nonzero exit code"))
    } else {
        Ok(())
    }
}

/// Whether some result in the prefix is a permanent failure.
pub open spec fn spec_has_fail(results: Seq<RetryableResult<()>>, upto: int) -> bool {
    exists|j: int|
        0 <= j < upto && (#[trigger] results[j]) matches Err(RetryableError::Fail(_))
}

/// Whether some result in the prefix is an error of any kind.
pub open spec fn spec_has_err(results: Seq<RetryableResult<()>>, upto: int) -> bool {
    exists|j: int| 0 <= j < upto && (#[trigger] results[j]) is Err
}

/// Combine the outcomes of the parallel sub-stream downloads, as the muxer
/// needs them: any permanent failure fails the whole resource; otherwise
/// any transient failure asks for a retry; only when every sub-download
/// succeeded does the combination succeed.
pub fn combine_stream_results(results: &Vec<RetryableResult<()>>) -> (r: RetryableResult<()>)
    ensures
        spec_has_fail(results@, results@.len() as int) ==> exists|j: int|
            0 <= j < results@.len() && r == #[trigger] results@[j] && results@[j] matches Err(
                RetryableError::Fail(_),
            ),
        !spec_has_fail(results@, results@.len() as int) && spec_has_err(
            results@,
            results@.len() as int,
        ) ==> exists|j: int|
            0 <= j < results@.len() && r == #[trigger] results@[j] && results@[j] is Err,
        !spec_has_err(results@, results@.len() as int) ==> r is Ok,
{
    let mut j: usize = 0;
    while j < results.len()
        invariant
            0 <= j <= results@.len(),
            !spec_has_fail(results@, j as int),
        decreases results@.len() - j,
    {
        match &results[j] {
            Err(RetryableError::Fail(e)) => {
                return Err(RetryableError::Fail(e));
            },
            _ => {},
        }
        j = j + 1;
    }
    let mut k: usize = 0;
    while k < results.len()
        invariant
            0 <= k <= results@.len(),
            !spec_has_fail(results@, results@.len() as int),
            !spec_has_err(results@, k as int),
        decreases results@.len() - k,
    {
        match &results[k] {
            Err(RetryableError::Retry(e)) => {
                return Err(RetryableError::Retry(e));
            },
            Err(RetryableError::Fail(e)) => {
                return Err(RetryableError::Fail(e));
            },
            Ok(_) => {},
        }
        k = k + 1;
    }
    Ok(())
}

} // verus!
