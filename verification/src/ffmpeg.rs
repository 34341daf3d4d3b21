//! The command lines given to ffmpeg, and what to make of how it ended.
use crate::report::views;
use vstd::prelude::*;

verus! {

/// Loudness normalization, to be spliced into the option position of [`normalize_command`]. Constant
/// arguments only, never user input. Below -70 LUFS it applies no gain at all, so it rescues a quiet
/// capture but not a dead one.
pub const LOUDNORM_ARGS: [&'static str; 2] = ["-af", "loudnorm=I=-16:TP=-1.5:LRA=11"];

/// How a recording is prepared before it is transcribed.
#[derive(Debug, Clone)]
pub struct FfmpegOptions {
    pub normalize_loudness: bool,
    pub custom_command: Option<String>,
}

impl Default for FfmpegOptions {
    fn default() -> (r: Self)
        ensures
            r.normalize_loudness,
            r.custom_command is None,
    {
        FfmpegOptions { normalize_loudness: true, custom_command: None }
    }
}

/// Why a recording could not be processed.
#[derive(Debug)]
pub enum FfmpegError {
    /// No ffmpeg executable was found.
    NotFound,
    /// A path cannot be written as text.
    PathNotText,
    /// Re-encoding failed; what ffmpeg printed, and the arguments it was given.
    ConversionFailed { stderr: String, args: String },
    /// Re-encoding reported success and left no file.
    OutputMissing,
    /// Mixing two recordings failed.
    MergeFailed,
    /// Cutting the head off a recording failed; how much, and off which.
    TrimFailed { start: String, input: String },
}

impl FfmpegError {
    /// The text of [`FfmpegError::message`].
    pub open spec fn text(self) -> Seq<char> {
        match self {
            FfmpegError::NotFound => "ffmpeg not found"@,
            FfmpegError::PathNotText => "tostr"@,
            FfmpegError::ConversionFailed { stderr, args } => "unable to convert file: "@ + stderr@
                + " args: "@ + args@,
            FfmpegError::OutputMissing =>
                "seems like ffmpeg failed for some reason. output not exists"@,
            FfmpegError::MergeFailed => "unable to merge files"@,
            FfmpegError::TrimFailed { start, input } => "failed to trim "@ + start@ + "s from "@
                + input@,
        }
    }

    /// What to tell the user.
    pub fn message(&self) -> (r: String)
        ensures
            r@ == self.text(),
    {
        match self {
            FfmpegError::NotFound => "ffmpeg not found".to_string(),
            FfmpegError::PathNotText => "tostr".to_string(),
            FfmpegError::ConversionFailed { stderr, args } => {
                let mut m: String = "unable to convert file: ".to_string();
                m.append(stderr.as_str());
                m.append(" args: ");
                m.append(args.as_str());
                m
            },
            FfmpegError::OutputMissing =>
                "seems like ffmpeg failed for some reason. output not exists".to_string(),
            FfmpegError::MergeFailed => "unable to merge files".to_string(),
            FfmpegError::TrimFailed { start, input } => {
                let mut m: String = "failed to trim ".to_string();
                m.append(start.as_str());
                m.append("s from ");
                m.append(input.as_str());
                m
            },
        }
    }
}

/// The arguments that re-encode `input` to 16 kHz mono at `output`.
pub open spec fn normalize_line(
    input: Seq<char>,
    output: Seq<char>,
    additional: Seq<Seq<char>>,
) -> Seq<Seq<char>> {
    seq!["-i"@, input, "-ar"@, "16000"@, "-ac"@, "1"@, "-c:a"@, "pcm_s16le"@] + additional
        + seq![output, "-hide_banner"@, "-y"@, "-loglevel"@, "error"@]
}

/// The arguments that measure the volume of `input`.
pub open spec fn volume_line(input: Seq<char>) -> Seq<Seq<char>> {
    seq!["-hide_banner"@, "-i"@, input, "-af"@, "volumedetect"@, "-f"@, "null"@, "-"@]
}

/// The arguments that measure the loudness envelope of `input`, ten seconds a window.
pub open spec fn envelope_line(input: Seq<char>) -> Seq<Seq<char>> {
    seq![
        "-hide_banner"@,
        "-i"@,
        input,
        "-af"@,
        "aresample=16000,asetnsamples=n=160000,astats=metadata=1:reset=1,ametadata=print:key=lavfi.astats.Overall.RMS_level"@,
        "-f"@,
        "null"@,
        "-"@,
    ]
}

/// The arguments that copy `input` from `start` seconds onward into `output`.
pub open spec fn trim_line(input: Seq<char>, output: Seq<char>, start: Seq<char>) -> Seq<
    Seq<char>,
> {
    seq![
        "-hide_banner"@,
        "-loglevel"@,
        "error"@,
        "-ss"@,
        start,
        "-i"@,
        input,
        "-c"@,
        "copy"@,
        "-y"@,
        output,
    ]
}

/// The arguments that mix `a` and `b` into `output`.
pub open spec fn merge_line(a: Seq<char>, b: Seq<char>, output: Seq<char>) -> Seq<Seq<char>> {
    seq![
        "-i"@,
        a,
        "-i"@,
        b,
        "-filter_complex"@,
        "amix=inputs=2:duration=longest:dropout_transition=0:normalize=0,alimiter=limit=0.97"@,
        output,
        "-hide_banner"@,
        "-y"@,
        "-loglevel"@,
        "error"@,
    ]
}

/// Adds one argument.
fn arg(args: &mut Vec<String>, text: &str)
    ensures
        views(final(args)@) == views(old(args)@).push(text@),
{
    args.push(text.to_string());
    assert(views(args@) =~= views(old(args)@).push(text@));
}

/// The arguments that measure the volume of `input`.
fn volume_args(input: &str) -> (r: Vec<String>)
    ensures
        views(r@) == volume_line(input@),
{
    let mut r: Vec<String> = Vec::new();
    arg(&mut r, "-hide_banner");
    arg(&mut r, "-i");
    arg(&mut r, input);
    arg(&mut r, "-af");
    arg(&mut r, "volumedetect");
    arg(&mut r, "-f");
    arg(&mut r, "null");
    arg(&mut r, "-");
    assert(views(r@) =~= volume_line(input@));
    r
}

/// The arguments that measure the loudness envelope of `input`.
fn envelope_args(input: &str) -> (r: Vec<String>)
    ensures
        views(r@) == envelope_line(input@),
{
    let mut r: Vec<String> = Vec::new();
    arg(&mut r, "-hide_banner");
    arg(&mut r, "-i");
    arg(&mut r, input);
    arg(&mut r, "-af");
    arg(&mut r, "aresample=16000,asetnsamples=n=160000,astats=metadata=1:reset=1,ametadata=print:key=lavfi.astats.Overall.RMS_level");
    arg(&mut r, "-f");
    arg(&mut r, "null");
    arg(&mut r, "-");
    assert(views(r@) =~= envelope_line(input@));
    r
}

/// The arguments that copy `input` from `start` seconds onward into `output`.
fn trim_args(input: &str, output: &str, start: &str) -> (r: Vec<String>)
    ensures
        views(r@) == trim_line(input@, output@, start@),
{
    let mut r: Vec<String> = Vec::new();
    arg(&mut r, "-hide_banner");
    arg(&mut r, "-loglevel");
    arg(&mut r, "error");
    arg(&mut r, "-ss");
    arg(&mut r, start);
    arg(&mut r, "-i");
    arg(&mut r, input);
    arg(&mut r, "-c");
    arg(&mut r, "copy");
    arg(&mut r, "-y");
    arg(&mut r, output);
    assert(views(r@) =~= trim_line(input@, output@, start@));
    r
}

/// The arguments that mix `a` and `b` into `output`.
fn merge_args(a: &str, b: &str, output: &str) -> (r: Vec<String>)
    ensures
        views(r@) == merge_line(a@, b@, output@),
{
    let mut r: Vec<String> = Vec::new();
    arg(&mut r, "-i");
    arg(&mut r, a);
    arg(&mut r, "-i");
    arg(&mut r, b);
    arg(&mut r, "-filter_complex");
    arg(&mut r, "amix=inputs=2:duration=longest:dropout_transition=0:normalize=0,alimiter=limit=0.97");
    arg(&mut r, output);
    arg(&mut r, "-hide_banner");
    arg(&mut r, "-y");
    arg(&mut r, "-loglevel");
    arg(&mut r, "error");
    assert(views(r@) =~= merge_line(a@, b@, output@));
    r
}

/// The texts of an optional list of arguments.
pub open spec fn listed(args: Option<Vec<String>>) -> Seq<Seq<char>> {
    match args {
        Some(list) => views(list@),
        None => seq![],
    }
}

/// The arguments that re-encode `input` to 16 kHz mono at `output`.
///
/// `additional` lands in an option position, between the codec flags and the output path. ffmpeg
/// has no end-of-options separator, so whatever goes in is parsed as flags.
fn normalize_args(input: &str, output: &str, additional: Option<Vec<String>>) -> (r: Vec<String>)
    ensures
        views(r@) == normalize_line(input@, output@, listed(additional)),
{
    let mut r: Vec<String> = Vec::new();
    arg(&mut r, "-i");
    arg(&mut r, input);
    arg(&mut r, "-ar");
    arg(&mut r, "16000");
    arg(&mut r, "-ac");
    arg(&mut r, "1");
    arg(&mut r, "-c:a");
    arg(&mut r, "pcm_s16le");
    let ghost head = views(r@);
    match additional {
        Some(mut list) => {
            let ghost more = list@;
            r.append(&mut list);
            assert(views(r@) =~= head + views(more));
        },
        None => {},
    }
    let ghost body = views(r@);
    assert(body =~= head + listed(additional));
    arg(&mut r, output);
    arg(&mut r, "-hide_banner");
    arg(&mut r, "-y");
    arg(&mut r, "-loglevel");
    arg(&mut r, "error");
    assert(views(r@) =~= normalize_line(input@, output@, listed(additional)));
    r
}

/// The command line that re-encodes a recording, once it is known whether ffmpeg was found and
/// whether the paths can be written as text.
pub fn normalize_command(
    found: bool,
    input: Option<&str>,
    output: Option<&str>,
    additional: Option<Vec<String>>,
) -> (r: Result<Vec<String>, FfmpegError>)
    ensures
        !found <==> r == Err::<Vec<String>, FfmpegError>(FfmpegError::NotFound),
        found && (input is None || output is None) <==> r == Err::<Vec<String>, FfmpegError>(
            FfmpegError::PathNotText,
        ),
        r is Ok <==> found && input is Some && output is Some,
        r matches Ok(args) ==> views(args@) == normalize_line(
            input->0@,
            output->0@,
            listed(additional),
        ),
{
    if !found {
        return Err(FfmpegError::NotFound);
    }
    match (input, output) {
        (Some(i), Some(o)) => Ok(normalize_args(i, o, additional)),
        _ => Err(FfmpegError::PathNotText),
    }
}

/// The command line that copies a recording from `start` seconds onward.
pub fn trim_command(
    found: bool,
    input: Option<&str>,
    output: Option<&str>,
    start: &str,
) -> (r: Result<Vec<String>, FfmpegError>)
    ensures
        !found <==> r == Err::<Vec<String>, FfmpegError>(FfmpegError::NotFound),
        found && (input is None || output is None) <==> r == Err::<Vec<String>, FfmpegError>(
            FfmpegError::PathNotText,
        ),
        r is Ok <==> found && input is Some && output is Some,
        r matches Ok(args) ==> views(args@) == trim_line(input->0@, output->0@, start@),
{
    if !found {
        return Err(FfmpegError::NotFound);
    }
    match (input, output) {
        (Some(i), Some(o)) => Ok(trim_args(i, o, start)),
        _ => Err(FfmpegError::PathNotText),
    }
}

/// The command line that mixes two recordings.
pub fn merge_command(
    found: bool,
    a: Option<&str>,
    b: Option<&str>,
    output: Option<&str>,
) -> (r: Result<Vec<String>, FfmpegError>)
    ensures
        !found <==> r == Err::<Vec<String>, FfmpegError>(FfmpegError::NotFound),
        found && (a is None || b is None || output is None) <==> r == Err::<
            Vec<String>,
            FfmpegError,
        >(FfmpegError::PathNotText),
        r is Ok <==> found && a is Some && b is Some && output is Some,
        r matches Ok(args) ==> views(args@) == merge_line(a->0@, b->0@, output->0@),
{
    if !found {
        return Err(FfmpegError::NotFound);
    }
    match (a, b, output) {
        (Some(x), Some(y), Some(o)) => Ok(merge_args(x, y, o)),
        _ => Err(FfmpegError::PathNotText),
    }
}

/// The command line that measures the volume of a recording; without ffmpeg, or for a path that
/// cannot be written as text, the volume stays unknown.
pub fn volume_command(found: bool, input: Option<&str>) -> (r: Option<Vec<String>>)
    ensures
        r is Some <==> found && input is Some,
        r matches Some(args) ==> views(args@) == volume_line(input->0@),
{
    match input {
        Some(i) if found => Some(volume_args(i)),
        _ => None,
    }
}

/// The command line that measures the loudness envelope of a recording.
pub fn envelope_command(found: bool, input: Option<&str>) -> (r: Option<Vec<String>>)
    ensures
        r is Some <==> found && input is Some,
        r matches Some(args) ==> views(args@) == envelope_line(input->0@),
{
    match input {
        Some(i) if found => Some(envelope_args(i)),
        _ => None,
    }
}

/// What re-encoding came to.
pub fn normalize_outcome(
    succeeded: bool,
    stderr: String,
    args: String,
    output_exists: bool,
) -> (r: Result<(), FfmpegError>)
    ensures
        r is Ok <==> succeeded && output_exists,
        !succeeded <==> r == Err::<(), FfmpegError>(FfmpegError::ConversionFailed { stderr, args }),
        succeeded && !output_exists <==> r == Err::<(), FfmpegError>(FfmpegError::OutputMissing),
{
    if !succeeded {
        return Err(FfmpegError::ConversionFailed { stderr, args });
    }
    if !output_exists {
        return Err(FfmpegError::OutputMissing);
    }
    Ok(())
}

/// What cutting the head off a recording came to.
pub fn trim_outcome(
    succeeded: bool,
    output_exists: bool,
    start: String,
    input: String,
) -> (r: Result<(), FfmpegError>)
    ensures
        r is Ok <==> succeeded && output_exists,
        r is Err ==> r == Err::<(), FfmpegError>(FfmpegError::TrimFailed { start, input }),
{
    if succeeded && output_exists {
        Ok(())
    } else {
        Err(FfmpegError::TrimFailed { start, input })
    }
}

/// What mixing two recordings came to.
pub fn merge_outcome(succeeded: bool) -> (r: Result<(), FfmpegError>)
    ensures
        r is Ok <==> succeeded,
        r is Err ==> r == Err::<(), FfmpegError>(FfmpegError::MergeFailed),
{
    if succeeded {
        Ok(())
    } else {
        Err(FfmpegError::MergeFailed)
    }
}

/// Additional arguments stand after the codec flags and before the output path, and change
/// nothing else on the line.
pub proof fn additional_arguments_stand_before_the_output(
    input: Seq<char>,
    output: Seq<char>,
    additional: Seq<Seq<char>>,
)
    ensures
        ({
            let plain = normalize_line(input, output, seq![]);
            let line = normalize_line(input, output, additional);
            let n = additional.len() as int;
            &&& line.subrange(8, 8 + n) == additional
            &&& line[8 + n] == output
            &&& line.take(8) == plain.take(8)
            &&& line.skip(8 + n) == plain.skip(8)
        }),
{
    let plain = normalize_line(input, output, seq![]);
    let line = normalize_line(input, output, additional);
    let n = additional.len() as int;
    assert(line.subrange(8, 8 + n) =~= additional);
    assert(line.take(8) =~= plain.take(8));
    assert(line.skip(8 + n) =~= plain.skip(8));
}

/// ffmpeg is told to seek before it is told the input, to copy, and to overwrite the output.
pub proof fn what_trimming_is_told(input: Seq<char>, output: Seq<char>, start: Seq<char>)
    ensures
        trim_line(input, output, start).len() == 11,
        trim_line(input, output, start)[0] == "-hide_banner"@,
        trim_line(input, output, start)[1] == "-loglevel"@,
        trim_line(input, output, start)[2] == "error"@,
        trim_line(input, output, start)[3] == "-ss"@,
        trim_line(input, output, start)[4] == start,
        trim_line(input, output, start)[5] == "-i"@,
        trim_line(input, output, start)[6] == input,
        trim_line(input, output, start)[7] == "-c"@,
        trim_line(input, output, start)[8] == "copy"@,
        trim_line(input, output, start)[9] == "-y"@,
        trim_line(input, output, start)[10] == output,
{
}

/// ffmpeg is told both inputs in order, to sum them without averaging and cap the peaks, and the
/// output.
pub proof fn what_mixing_is_told(a: Seq<char>, b: Seq<char>, output: Seq<char>)
    ensures
        merge_line(a, b, output).len() == 11,
        merge_line(a, b, output)[0] == "-i"@,
        merge_line(a, b, output)[1] == a,
        merge_line(a, b, output)[2] == "-i"@,
        merge_line(a, b, output)[3] == b,
        merge_line(a, b, output)[4] == "-filter_complex"@,
        merge_line(a, b, output)[5] == "amix=inputs=2:duration=longest:dropout_transition=0:normalize=0,alimiter=limit=0.97"@,
        merge_line(a, b, output)[6] == output,
        merge_line(a, b, output)[7] == "-hide_banner"@,
        merge_line(a, b, output)[8] == "-y"@,
        merge_line(a, b, output)[9] == "-loglevel"@,
        merge_line(a, b, output)[10] == "error"@,
{
}

/// ffmpeg is told to detect the volume and to write nothing.
pub proof fn what_measuring_the_volume_is_told(input: Seq<char>)
    ensures
        volume_line(input).len() == 8,
        volume_line(input)[0] == "-hide_banner"@,
        volume_line(input)[1] == "-i"@,
        volume_line(input)[2] == input,
        volume_line(input)[3] == "-af"@,
        volume_line(input)[4] == "volumedetect"@,
        volume_line(input)[5] == "-f"@,
        volume_line(input)[6] == "null"@,
        volume_line(input)[7] == "-"@,
{
}

/// ffmpeg is told to print the level of every ten seconds and to write nothing.
pub proof fn what_measuring_the_envelope_is_told(input: Seq<char>)
    ensures
        envelope_line(input).len() == 8,
        envelope_line(input)[0] == "-hide_banner"@,
        envelope_line(input)[1] == "-i"@,
        envelope_line(input)[2] == input,
        envelope_line(input)[3] == "-af"@,
        envelope_line(input)[4] == "aresample=16000,asetnsamples=n=160000,astats=metadata=1:reset=1,ametadata=print:key=lavfi.astats.Overall.RMS_level"@,
        envelope_line(input)[5] == "-f"@,
        envelope_line(input)[6] == "null"@,
        envelope_line(input)[7] == "-"@,
{
}

/// ffmpeg is told the input, sixteen kilohertz, one channel and the codec, then whatever is added,
/// then the output and to overwrite it.
pub proof fn what_re_encoding_is_told(
    input: Seq<char>,
    output: Seq<char>,
    additional: Seq<Seq<char>>,
    i: int,
)
    ensures
        normalize_line(input, output, additional).len() == additional.len() + 13,
        normalize_line(input, output, additional)[0] == "-i"@,
        normalize_line(input, output, additional)[1] == input,
        normalize_line(input, output, additional)[2] == "-ar"@,
        normalize_line(input, output, additional)[3] == "16000"@,
        normalize_line(input, output, additional)[4] == "-ac"@,
        normalize_line(input, output, additional)[5] == "1"@,
        normalize_line(input, output, additional)[6] == "-c:a"@,
        normalize_line(input, output, additional)[7] == "pcm_s16le"@,
        0 <= i < additional.len() ==> normalize_line(input, output, additional)[8 + i]
            == additional[i],
        normalize_line(input, output, additional)[additional.len() as int + 8] == output,
        normalize_line(input, output, additional)[additional.len() as int + 9] == "-hide_banner"@,
        normalize_line(input, output, additional)[additional.len() as int + 10] == "-y"@,
        normalize_line(input, output, additional)[additional.len() as int + 11] == "-loglevel"@,
        normalize_line(input, output, additional)[additional.len() as int + 12] == "error"@,
{
}

/// Nothing is added where nothing is given, and everything that is given, in order.
pub proof fn what_is_added_is_what_was_given(args: Vec<String>, i: int)
    ensures
        listed(None).len() == 0,
        listed(Some(args)).len() == args@.len(),
        0 <= i < args@.len() ==> listed(Some(args))[i] == args@[i]@,
{
}

/// Every error is told in its own words, with what it is about.
pub proof fn every_error_is_told_in_its_own_words(a: String, b: String)
    ensures
        FfmpegError::NotFound.text() == "ffmpeg not found"@,
        FfmpegError::PathNotText.text() == "tostr"@,
        FfmpegError::OutputMissing.text()
            == "seems like ffmpeg failed for some reason. output not exists"@,
        FfmpegError::MergeFailed.text() == "unable to merge files"@,
        (FfmpegError::ConversionFailed { stderr: a, args: b }).text() == "unable to convert file: "@
            + a@ + " args: "@ + b@,
        (FfmpegError::TrimFailed { start: a, input: b }).text() == "failed to trim "@ + a@
            + "s from "@ + b@,
{
}

} // verus!
