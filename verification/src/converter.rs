//! The external converter: its settings, the names of what it writes, and
//! the command lines that run it.

use crate::args::ConvertArgs;
use crate::hours::{epoch_token_of, key_of, nameable, UtcTime};
use crate::products::{sampling_token, sampling_token_from_seconds};
use crate::text::{
    ascii_bytes, decimal_of, lit, push_decimal, push_text, push_zero_padded, trim_of, trim_range,
    views,
};
use flate2::write::GzEncoder;
use flate2::Compression;
use std::io::Write;
use vstd::prelude::*;
use vstd::slice::*;
use vstd::string::*;
use vstd::utf8::encode_utf8;

verus! {

/// How observations are written.
#[derive(Clone, Copy, Debug, PartialEq, Eq, Structural)]
pub enum ObsOutputFormat {
    /// Plain RINEX.
    Rinex,
    /// Compact RINEX.
    CompactRinex,
}

/// How navigation data is written.
#[derive(Clone, Copy, Debug, PartialEq, Eq, Structural)]
pub enum NavOutputFormat {
    /// One file for all systems.
    Mixed,
    /// One file for each system, bundled into one archive.
    IndividualTarGz,
}

/// What the converter is asked for beyond the station's description.
#[derive(Clone, Copy, Debug, PartialEq, Eq, Structural)]
pub struct ConverterOptions {
    /// Seconds between observations.
    pub obs_sampling_secs: u32,
    pub obs_output_format: ObsOutputFormat,
    pub nav_output_format: NavOutputFormat,
}

/// Why the converter's options are refused.
#[derive(Clone, Copy, Debug, PartialEq, Eq, Structural)]
pub enum OptionsError {
    /// The sampling interval is zero.
    ZeroSampling,
    /// The converter writes observations as plain RINEX only.
    UnsupportedObservationFormat,
}

/// What is wrong with the options, if anything: the sampling interval is
/// looked at first.
pub open spec fn options_error(options: ConverterOptions) -> Option<OptionsError> {
    if options.obs_sampling_secs == 0 {
        Some(OptionsError::ZeroSampling)
    } else if options.obs_output_format != ObsOutputFormat::Rinex {
        Some(OptionsError::UnsupportedObservationFormat)
    } else {
        None
    }
}

/// Checks the options before the converter is looked for.
pub fn check_converter_options(options: &ConverterOptions) -> (r: Result<(), OptionsError>)
    ensures
        match r {
            Ok(()) => options_error(*options).is_none(),
            Err(e) => options_error(*options) == Some(e),
        },
{
    if options.obs_sampling_secs == 0 {
        return Err(OptionsError::ZeroSampling);
    }
    match options.obs_output_format {
        ObsOutputFormat::Rinex => Ok(()),
        ObsOutputFormat::CompactRinex => Err(OptionsError::UnsupportedObservationFormat),
    }
}

/// The program to run: the configured one if it exists, else the
/// converter's bare name, to be found on the search path. The flag tells
/// that the bare name was taken.
pub open spec fn resolved_program(configured: Seq<u8>, exists: bool) -> (Seq<u8>, bool) {
    if exists {
        (configured, false)
    } else {
        (lit("convbin"@), true)
    }
}

/// Chooses the program to run. `exists` tells whether the configured path
/// is there.
pub fn resolve_convbin_program(configured: &[u8], exists: bool) -> (r: (Vec<u8>, bool))
    ensures
        (r.0@, r.1) == resolved_program(configured@, exists),
{
    let mut program: Vec<u8> = Vec::new();
    if exists {
        program.extend_from_slice(configured);
        proof {
            assert(program@ =~= configured@);
        }
        (program, false)
    } else {
        proof {
            reveal_strlit("convbin");
        }
        push_text(&mut program, "convbin");
        proof {
            assert(program@ =~= lit("convbin"@));
        }
        (program, true)
    }
}

/// The name under which a step is reported: the step's own name, and where
/// the bare name was taken, the path that was asked for and not found.
pub open spec fn step_label(step: Seq<u8>, configured: Seq<u8>, used_fallback: bool) -> Seq<u8> {
    if used_fallback {
        step + lit(" (requested "@) + configured + lit(" not found; used PATH lookup)"@)
    } else {
        step
    }
}

/// Writes the name under which a step is reported.
pub fn make_step_label(step: &[u8], configured: &[u8], used_fallback: bool) -> (r: Vec<u8>)
    ensures
        r@ == step_label(step@, configured@, used_fallback),
{
    let mut out: Vec<u8> = Vec::new();
    out.extend_from_slice(step);
    if used_fallback {
        proof {
            reveal_strlit(" (requested ");
            reveal_strlit(" not found; used PATH lookup)");
        }
        push_text(&mut out, " (requested ");
        out.extend_from_slice(configured);
        push_text(&mut out, " not found; used PATH lookup)");
    }
    proof {
        assert(out@ =~= step_label(step@, configured@, used_fallback));
    }
    out
}

/// The station as the converter is told of it.
#[derive(Clone, Debug)]
pub struct StationInfo {
    pub station: Vec<u8>,
    pub country: Vec<u8>,
    pub receiver_type: Vec<u8>,
    pub antenna_type: Vec<u8>,
    pub observer: Vec<u8>,
}

/// Takes the station's description out of the conversion settings, each
/// text as its bytes.
pub fn station_info(args: &ConvertArgs) -> (r: StationInfo)
    ensures
        r.station@ == encode_utf8(args.station@),
        r.country@ == encode_utf8(args.country@),
        r.receiver_type@ == encode_utf8(args.receiver_type@),
        r.antenna_type@ == encode_utf8(args.antenna_type@),
        r.observer@ == encode_utf8(args.observer@),
{
    StationInfo {
        station: slice_to_vec(args.station.as_str().as_bytes()),
        country: slice_to_vec(args.country.as_str().as_bytes()),
        receiver_type: slice_to_vec(args.receiver_type.as_str().as_bytes()),
        antenna_type: slice_to_vec(args.antenna_type.as_str().as_bytes()),
        observer: slice_to_vec(args.observer.as_str().as_bytes()),
    }
}

/// What all products of an hour begin with: station, `00`, country, `_R_`,
/// the hour's epoch, and `_01H` for the hour's length.
pub open spec fn product_prefix(station: Seq<u8>, country: Seq<u8>, t: UtcTime) -> Seq<u8> {
    station + lit("00"@) + country + lit("_R_"@) + epoch_token_of(t) + lit("_01H"@)
}

/// The name of the observation file that the converter is asked to write.
pub open spec fn observation_name(
    station: Seq<u8>,
    country: Seq<u8>,
    t: UtcTime,
    sampling_secs: u32,
) -> Seq<u8> {
    product_prefix(station, country, t) + lit("_"@) + sampling_token(sampling_secs) + lit(
        "_MO.rnx"@,
    )
}

/// The name of a navigation file: the prefix, `_`, the two letters of the
/// system (`MN` for all systems together), and `.rnx`.
pub open spec fn navigation_name(
    station: Seq<u8>,
    country: Seq<u8>,
    t: UtcTime,
    suffix: Seq<u8>,
) -> Seq<u8> {
    product_prefix(station, country, t) + lit("_"@) + suffix + lit(".rnx"@)
}

/// The name of the archive that bundles the navigation files of the
/// systems.
pub open spec fn navset_name(station: Seq<u8>, country: Seq<u8>, t: UtcTime) -> Seq<u8> {
    product_prefix(station, country, t) + lit("_NAVSET.tar.gz"@)
}

/// The name of the file into which the hour's segments are merged.
pub open spec fn merged_name(t: UtcTime) -> Seq<u8> {
    lit("merged_"@) + key_of(t) + lit(".ubx"@)
}

/// The name of a file after compression.
pub open spec fn gz_name(name: Seq<u8>) -> Seq<u8> {
    name + lit(".gz"@)
}

/// Appends what all products of an hour begin with.
fn push_product_prefix(out: &mut Vec<u8>, info: &StationInfo, t: &UtcTime)
    requires
        nameable(*t),
    ensures
        final(out)@ == old(out)@ + product_prefix(info.station@, info.country@, *t),
{
    proof {
        reveal_strlit("00");
        reveal_strlit("_R_");
        reveal_strlit("_01H");
    }
    out.extend_from_slice(info.station.as_slice());
    push_text(out, "00");
    out.extend_from_slice(info.country.as_slice());
    push_text(out, "_R_");
    push_zero_padded(out, t.year as u64, 4);
    push_zero_padded(out, t.ordinal as u64, 3);
    push_zero_padded(out, t.hour as u64, 2);
    push_text(out, "00");
    push_text(out, "_01H");
    proof {
        assert(out@ =~= old(out)@ + product_prefix(info.station@, info.country@, *t));
    }
}

/// Writes the name of the observation file of an hour.
pub fn observation_file_name(info: &StationInfo, t: &UtcTime, sampling_secs: u32) -> (r: Vec<u8>)
    requires
        nameable(*t),
    ensures
        r@ == observation_name(info.station@, info.country@, *t, sampling_secs),
{
    proof {
        reveal_strlit("_");
        reveal_strlit("_MO.rnx");
    }
    let mut out: Vec<u8> = Vec::new();
    push_product_prefix(&mut out, info, t);
    push_text(&mut out, "_");
    let token = sampling_token_from_seconds(sampling_secs);
    out.extend_from_slice(token.as_slice());
    push_text(&mut out, "_MO.rnx");
    proof {
        assert(out@ =~= observation_name(info.station@, info.country@, *t, sampling_secs));
    }
    out
}

/// Writes the name of a navigation file of an hour.
pub fn navigation_file_name(info: &StationInfo, t: &UtcTime, suffix: &[u8]) -> (r: Vec<u8>)
    requires
        nameable(*t),
    ensures
        r@ == navigation_name(info.station@, info.country@, *t, suffix@),
{
    proof {
        reveal_strlit("_");
        reveal_strlit(".rnx");
    }
    let mut out: Vec<u8> = Vec::new();
    push_product_prefix(&mut out, info, t);
    push_text(&mut out, "_");
    out.extend_from_slice(suffix);
    push_text(&mut out, ".rnx");
    proof {
        assert(out@ =~= navigation_name(info.station@, info.country@, *t, suffix@));
    }
    out
}

/// Writes the name of the archive of the navigation files of an hour.
pub fn navset_file_name(info: &StationInfo, t: &UtcTime) -> (r: Vec<u8>)
    requires
        nameable(*t),
    ensures
        r@ == navset_name(info.station@, info.country@, *t),
{
    proof {
        reveal_strlit("_NAVSET.tar.gz");
    }
    let mut out: Vec<u8> = Vec::new();
    push_product_prefix(&mut out, info, t);
    push_text(&mut out, "_NAVSET.tar.gz");
    proof {
        assert(out@ =~= navset_name(info.station@, info.country@, *t));
    }
    out
}

/// Writes the name of the file into which the hour's segments are merged.
pub fn merged_file_name(t: &UtcTime) -> (r: Vec<u8>)
    requires
        nameable(*t),
    ensures
        r@ == merged_name(*t),
{
    proof {
        reveal_strlit("merged_");
        reveal_strlit(".ubx");
    }
    let mut out: Vec<u8> = Vec::new();
    push_text(&mut out, "merged_");
    let key = crate::hours::hour_key(t);
    out.extend_from_slice(key.as_slice());
    push_text(&mut out, ".ubx");
    proof {
        assert(out@ =~= merged_name(*t));
    }
    out
}

/// Writes the name of a file after compression.
pub fn gz_file_name(name: &[u8]) -> (r: Vec<u8>)
    ensures
        r@ == gz_name(name@),
{
    proof {
        reveal_strlit(".gz");
    }
    let mut out: Vec<u8> = Vec::new();
    out.extend_from_slice(name);
    push_text(&mut out, ".gz");
    proof {
        assert(out@ =~= gz_name(name@));
    }
    out
}

/// One argument of a command line. A file of the workspace is given by
/// its name; the caller puts the workspace's path before it.
#[derive(Clone, Debug)]
pub struct CommandArg {
    pub in_workspace: bool,
    pub text: Vec<u8>,
}

/// A plain argument.
pub open spec fn plain(text: Seq<u8>) -> (bool, Seq<u8>) {
    (false, text)
}

/// A file of the workspace as an argument.
pub open spec fn workspace_file(name: Seq<u8>) -> (bool, Seq<u8>) {
    (true, name)
}

/// A command line as plain values.
pub open spec fn arg_views(args: Seq<CommandArg>) -> Seq<(bool, Seq<u8>)> {
    Seq::new(args.len(), |i: int| (args[i].in_workspace, args[i].text@))
}

/// How every run names the input format and the version to write.
pub open spec fn format_args() -> Seq<(bool, Seq<u8>)> {
    seq![plain(lit("-r"@)), plain(lit("ubx"@)), plain(lit("-v"@)), plain(lit("3.04"@))]
}

/// How a run describes the station: marker, observer and agency, receiver,
/// antenna.
pub open spec fn header_args(
    station: Seq<u8>,
    country: Seq<u8>,
    receiver_type: Seq<u8>,
    antenna_type: Seq<u8>,
    observer: Seq<u8>,
) -> Seq<(bool, Seq<u8>)> {
    seq![
        plain(lit("-hm"@)),
        plain(station + lit("00"@)),
        plain(lit("-ho"@)),
        plain(observer + lit("/"@) + country),
        plain(lit("-hr"@)),
        plain(lit("NA/"@) + receiver_type + lit("/NA"@)),
        plain(lit("-ha"@)),
        plain(lit("NA/"@) + antenna_type),
    ]
}

/// The arguments of the run that writes the observations of an hour into
/// the workspace file `output`, from the merged input `merged`.
pub open spec fn observation_args(
    station: Seq<u8>,
    country: Seq<u8>,
    receiver_type: Seq<u8>,
    antenna_type: Seq<u8>,
    observer: Seq<u8>,
    sampling_secs: u32,
    output: Seq<u8>,
    merged: Seq<u8>,
) -> Seq<(bool, Seq<u8>)> {
    format_args() + seq![plain(lit("-ti"@)), plain(decimal_of(sampling_secs as nat))] + header_args(
        station,
        country,
        receiver_type,
        antenna_type,
        observer,
    ) + seq![plain(lit("-o"@)), workspace_file(output), workspace_file(merged)]
}

/// The arguments that switch systems off: `-y` and the system's letter, for
/// each.
pub open spec fn exclusion_args(excluded: Seq<u8>) -> Seq<(bool, Seq<u8>)>
    decreases excluded.len(),
{
    if excluded.len() == 0 {
        Seq::<(bool, Seq<u8>)>::empty()
    } else {
        exclusion_args(excluded.drop_last()) + seq![
            plain(lit("-y"@)),
            plain(seq![excluded.last()]),
        ]
    }
}

/// The arguments of a run that writes the navigation data of an hour into
/// the workspace file `output`, with the systems `excluded` switched off.
pub open spec fn navigation_args(
    station: Seq<u8>,
    country: Seq<u8>,
    receiver_type: Seq<u8>,
    antenna_type: Seq<u8>,
    observer: Seq<u8>,
    excluded: Seq<u8>,
    output: Seq<u8>,
    merged: Seq<u8>,
) -> Seq<(bool, Seq<u8>)> {
    format_args() + header_args(station, country, receiver_type, antenna_type, observer)
        + exclusion_args(excluded) + seq![
        plain(lit("-n"@)),
        workspace_file(output),
        workspace_file(merged),
    ]
}

/// Appends a plain argument given as an ASCII text.
fn push_flag(args: &mut Vec<CommandArg>, flag: &str)
    requires
        is_ascii(flag),
    ensures
        arg_views(final(args)@) == arg_views(old(args)@).push(plain(lit(flag@))),
{
    let mut text: Vec<u8> = Vec::new();
    push_text(&mut text, flag);
    proof {
        assert(text@ =~= lit(flag@));
    }
    args.push(CommandArg { in_workspace: false, text });
    proof {
        assert(arg_views(args@) =~= arg_views(old(args)@).push(plain(lit(flag@))));
    }
}

/// Appends an argument.
fn push_arg(args: &mut Vec<CommandArg>, in_workspace: bool, text: Vec<u8>)
    ensures
        arg_views(final(args)@) == arg_views(old(args)@).push((in_workspace, text@)),
{
    let ghost t = text@;
    args.push(CommandArg { in_workspace, text });
    proof {
        assert(arg_views(args@) =~= arg_views(old(args)@).push((in_workspace, t)));
    }
}

/// Appends the arguments that name the input format and the version.
fn push_format_args(args: &mut Vec<CommandArg>)
    ensures
        arg_views(final(args)@) == arg_views(old(args)@) + format_args(),
{
    proof {
        reveal_strlit("-r");
        reveal_strlit("ubx");
        reveal_strlit("-v");
        reveal_strlit("3.04");
    }
    push_flag(args, "-r");
    push_flag(args, "ubx");
    push_flag(args, "-v");
    push_flag(args, "3.04");
    proof {
        assert(arg_views(args@) =~= arg_views(old(args)@) + format_args());
    }
}

/// Appends the arguments that describe the station.
fn push_header_args(args: &mut Vec<CommandArg>, info: &StationInfo)
    ensures
        arg_views(final(args)@) == arg_views(old(args)@) + header_args(
            info.station@,
            info.country@,
            info.receiver_type@,
            info.antenna_type@,
            info.observer@,
        ),
{
    proof {
        reveal_strlit("-hm");
        reveal_strlit("00");
        reveal_strlit("-ho");
        reveal_strlit("/");
        reveal_strlit("-hr");
        reveal_strlit("NA/");
        reveal_strlit("/NA");
        reveal_strlit("-ha");
    }
    let mut marker: Vec<u8> = Vec::new();
    marker.extend_from_slice(info.station.as_slice());
    push_text(&mut marker, "00");
    let mut agency: Vec<u8> = Vec::new();
    agency.extend_from_slice(info.observer.as_slice());
    push_text(&mut agency, "/");
    agency.extend_from_slice(info.country.as_slice());
    let mut receiver: Vec<u8> = Vec::new();
    push_text(&mut receiver, "NA/");
    receiver.extend_from_slice(info.receiver_type.as_slice());
    push_text(&mut receiver, "/NA");
    let mut antenna: Vec<u8> = Vec::new();
    push_text(&mut antenna, "NA/");
    antenna.extend_from_slice(info.antenna_type.as_slice());
    proof {
        assert(marker@ =~= info.station@ + lit("00"@));
        assert(agency@ =~= info.observer@ + lit("/"@) + info.country@);
        assert(receiver@ =~= lit("NA/"@) + info.receiver_type@ + lit("/NA"@));
        assert(antenna@ =~= lit("NA/"@) + info.antenna_type@);
    }
    push_flag(args, "-hm");
    push_arg(args, false, marker);
    push_flag(args, "-ho");
    push_arg(args, false, agency);
    push_flag(args, "-hr");
    push_arg(args, false, receiver);
    push_flag(args, "-ha");
    push_arg(args, false, antenna);
    proof {
        assert(arg_views(args@) =~= arg_views(old(args)@) + header_args(
            info.station@,
            info.country@,
            info.receiver_type@,
            info.antenna_type@,
            info.observer@,
        ));
    }
}

/// Copies a text.
fn copy_of(text: &[u8]) -> (r: Vec<u8>)
    ensures
        r@ == text@,
{
    let mut out: Vec<u8> = Vec::new();
    out.extend_from_slice(text);
    proof {
        assert(out@ =~= text@);
    }
    out
}

/// Builds the command line that writes the observations of an hour.
pub fn observation_command(
    info: &StationInfo,
    sampling_secs: u32,
    output: &[u8],
    merged: &[u8],
) -> (r: Vec<CommandArg>)
    ensures
        arg_views(r@) == observation_args(
            info.station@,
            info.country@,
            info.receiver_type@,
            info.antenna_type@,
            info.observer@,
            sampling_secs,
            output@,
            merged@,
        ),
{
    proof {
        reveal_strlit("-ti");
        reveal_strlit("-o");
    }
    let mut args: Vec<CommandArg> = Vec::new();
    proof {
        assert(arg_views(args@) =~= Seq::<(bool, Seq<u8>)>::empty());
    }
    push_format_args(&mut args);
    push_flag(&mut args, "-ti");
    let mut interval: Vec<u8> = Vec::new();
    push_decimal(&mut interval, sampling_secs as u64);
    proof {
        assert(interval@ =~= decimal_of(sampling_secs as nat));
    }
    push_arg(&mut args, false, interval);
    push_header_args(&mut args, info);
    push_flag(&mut args, "-o");
    push_arg(&mut args, true, copy_of(output));
    push_arg(&mut args, true, copy_of(merged));
    proof {
        assert(arg_views(args@) =~= observation_args(
            info.station@,
            info.country@,
            info.receiver_type@,
            info.antenna_type@,
            info.observer@,
            sampling_secs,
            output@,
            merged@,
        ));
    }
    args
}

/// Builds a command line that writes navigation data of an hour.
pub fn navigation_command(info: &StationInfo, excluded: &[u8], output: &[u8], merged: &[u8]) -> (r:
    Vec<CommandArg>)
    ensures
        arg_views(r@) == navigation_args(
            info.station@,
            info.country@,
            info.receiver_type@,
            info.antenna_type@,
            info.observer@,
            excluded@,
            output@,
            merged@,
        ),
{
    let mut args: Vec<CommandArg> = Vec::new();
    proof {
        assert(arg_views(args@) =~= Seq::<(bool, Seq<u8>)>::empty());
    }
    push_format_args(&mut args);
    push_header_args(&mut args, info);
    let ghost head = arg_views(args@);
    let mut i: usize = 0;
    proof {
        assert(excluded@.subrange(0, 0) =~= Seq::<u8>::empty());
        assert(arg_views(args@) =~= head + exclusion_args(excluded@.subrange(0, 0)));
    }
    while i < excluded.len()
        invariant
            i <= excluded.len(),
            arg_views(args@) == head + exclusion_args(excluded@.subrange(0, i as int)),
        decreases excluded.len() - i,
    {
        proof {
            reveal_strlit("-y");
            assert(excluded@.subrange(0, i + 1).drop_last() =~= excluded@.subrange(0, i as int));
            assert(excluded@.subrange(0, i + 1).last() == excluded@[i as int]);
        }
        push_flag(&mut args, "-y");
        let mut letter: Vec<u8> = Vec::new();
        letter.push(excluded[i]);
        proof {
            assert(letter@ =~= seq![excluded@[i as int]]);
        }
        push_arg(&mut args, false, letter);
        proof {
            assert(arg_views(args@) =~= head + exclusion_args(excluded@.subrange(0, i + 1)));
        }
        i += 1;
    }
    proof {
        reveal_strlit("-n");
        assert(excluded@.subrange(0, excluded.len() as int) =~= excluded@);
    }
    push_flag(&mut args, "-n");
    push_arg(&mut args, true, copy_of(output));
    push_arg(&mut args, true, copy_of(merged));
    proof {
        assert(arg_views(args@) =~= navigation_args(
            info.station@,
            info.country@,
            info.receiver_type@,
            info.antenna_type@,
            info.observer@,
            excluded@,
            output@,
            merged@,
        ));
    }
    args
}

/// The name under which the search for the converter is reported.
pub open spec fn availability_label(configured: Seq<u8>, used_fallback: bool) -> Seq<u8> {
    if used_fallback {
        lit("convbin availability check (requested "@) + configured + lit(
            " not found; used PATH lookup)"@,
        )
    } else {
        lit("convbin availability check ("@) + configured + lit(")"@)
    }
}

/// Writes the name under which the search for the converter is reported.
pub fn make_availability_label(configured: &[u8], used_fallback: bool) -> (r: Vec<u8>)
    ensures
        r@ == availability_label(configured@, used_fallback),
{
    proof {
        reveal_strlit("convbin availability check (requested ");
        reveal_strlit(" not found; used PATH lookup)");
        reveal_strlit("convbin availability check (");
        reveal_strlit(")");
    }
    let mut out: Vec<u8> = Vec::new();
    if used_fallback {
        push_text(&mut out, "convbin availability check (requested ");
        out.extend_from_slice(configured);
        push_text(&mut out, " not found; used PATH lookup)");
    } else {
        push_text(&mut out, "convbin availability check (");
        out.extend_from_slice(configured);
        push_text(&mut out, ")");
    }
    proof {
        assert(out@ =~= availability_label(configured@, used_fallback));
    }
    out
}

/// The name under which a navigation run is reported: it says which files
/// the run writes.
pub open spec fn navigation_label(mode: Seq<u8>, configured: Seq<u8>, used_fallback: bool) -> Seq<
    u8,
> {
    if used_fallback {
        lit("convbin navigation conversion ("@) + mode + lit(", requested "@) + configured + lit(
            " not found; used PATH lookup)"@,
        )
    } else {
        lit("convbin navigation conversion ("@) + mode + lit(")"@)
    }
}

/// Writes the name under which a navigation run is reported.
pub fn make_navigation_label(mode: &[u8], configured: &[u8], used_fallback: bool) -> (r: Vec<u8>)
    ensures
        r@ == navigation_label(mode@, configured@, used_fallback),
{
    proof {
        reveal_strlit("convbin navigation conversion (");
        reveal_strlit(", requested ");
        reveal_strlit(" not found; used PATH lookup)");
        reveal_strlit(")");
    }
    let mut out: Vec<u8> = Vec::new();
    push_text(&mut out, "convbin navigation conversion (");
    out.extend_from_slice(mode);
    if used_fallback {
        push_text(&mut out, ", requested ");
        out.extend_from_slice(configured);
        push_text(&mut out, " not found; used PATH lookup)");
    } else {
        push_text(&mut out, ")");
    }
    proof {
        assert(out@ =~= navigation_label(mode@, configured@, used_fallback));
    }
    out
}

/// The message about a command that ended badly: the step, how the command
/// ended, and what it wrote to its two outputs, without the white space
/// around that.
pub open spec fn failure_message(
    label: Seq<u8>,
    status: Seq<u8>,
    stdout: Seq<u8>,
    stderr: Seq<u8>,
) -> Seq<u8> {
    label + lit(" failed with status "@) + status + lit(".\nstdout:\n"@) + trim_of(stdout) + lit(
        "\nstderr:\n"@,
    ) + trim_of(stderr)
}

/// Writes the message about a command that ended badly.
pub fn command_failure_message(label: &[u8], status: &[u8], stdout: &[u8], stderr: &[u8]) -> (r:
    Vec<u8>)
    ensures
        r@ == failure_message(label@, status@, stdout@, stderr@),
{
    proof {
        reveal_strlit(" failed with status ");
        reveal_strlit(".\nstdout:\n");
        reveal_strlit("\nstderr:\n");
    }
    let mut out: Vec<u8> = Vec::new();
    out.extend_from_slice(label);
    push_text(&mut out, " failed with status ");
    out.extend_from_slice(status);
    push_text(&mut out, ".\nstdout:\n");
    let (a, b) = trim_range(stdout, 0, stdout.len());
    out.extend_from_slice(slice_subrange(stdout, a, b));
    push_text(&mut out, "\nstderr:\n");
    let (c, d) = trim_range(stderr, 0, stderr.len());
    out.extend_from_slice(slice_subrange(stderr, c, d));
    proof {
        assert(stdout@.subrange(0, stdout.len() as int) =~= stdout@);
        assert(stderr@.subrange(0, stderr.len() as int) =~= stderr@);
        assert(out@ =~= failure_message(label@, status@, stdout@, stderr@));
    }
    out
}

/// A satellite system with navigation data of its own.
#[derive(Clone, Copy, Debug, PartialEq, Eq, Structural)]
pub enum NavSystem {
    Gps,
    Glonass,
    Galileo,
    Beidou,
    Qzss,
}

/// The two letters that name a system's navigation file.
pub open spec fn nav_suffix(system: NavSystem) -> Seq<u8> {
    match system {
        NavSystem::Gps => lit("GN"@),
        NavSystem::Glonass => lit("RN"@),
        NavSystem::Galileo => lit("EN"@),
        NavSystem::Beidou => lit("CN"@),
        NavSystem::Qzss => lit("JN"@),
    }
}

/// The systems to switch off so that only one system's data is written:
/// all of `G R E J S C` but the system's own letter.
pub open spec fn nav_excluded(system: NavSystem) -> Seq<u8> {
    match system {
        NavSystem::Gps => lit("REJSC"@),
        NavSystem::Glonass => lit("GEJSC"@),
        NavSystem::Galileo => lit("GRJSC"@),
        NavSystem::Beidou => lit("GREJS"@),
        NavSystem::Qzss => lit("GRESC"@),
    }
}

/// The systems in the order in which their files are written.
pub open spec fn nav_systems() -> Seq<NavSystem> {
    seq![
        NavSystem::Gps,
        NavSystem::Glonass,
        NavSystem::Galileo,
        NavSystem::Beidou,
        NavSystem::Qzss,
    ]
}

/// Lists the systems in the order in which their files are written.
pub fn all_nav_systems() -> (r: Vec<NavSystem>)
    ensures
        r@ == nav_systems(),
{
    let mut out: Vec<NavSystem> = Vec::new();
    out.push(NavSystem::Gps);
    out.push(NavSystem::Glonass);
    out.push(NavSystem::Galileo);
    out.push(NavSystem::Beidou);
    out.push(NavSystem::Qzss);
    proof {
        assert(out@ =~= nav_systems());
    }
    out
}

/// Gives the two letters that name a system's navigation file.
pub fn nav_system_suffix(system: NavSystem) -> (r: &'static str)
    ensures
        is_ascii(r),
        lit(r@) == nav_suffix(system),
{
    proof {
        reveal_strlit("GN");
        reveal_strlit("RN");
        reveal_strlit("EN");
        reveal_strlit("CN");
        reveal_strlit("JN");
    }
    match system {
        NavSystem::Gps => "GN",
        NavSystem::Glonass => "RN",
        NavSystem::Galileo => "EN",
        NavSystem::Beidou => "CN",
        NavSystem::Qzss => "JN",
    }
}

/// Gives the letters of the systems to switch off for a system's file.
pub fn nav_system_excluded(system: NavSystem) -> (r: &'static str)
    ensures
        is_ascii(r),
        lit(r@) == nav_excluded(system),
{
    proof {
        reveal_strlit("REJSC");
        reveal_strlit("GEJSC");
        reveal_strlit("GRJSC");
        reveal_strlit("GREJS");
        reveal_strlit("GRESC");
    }
    match system {
        NavSystem::Gps => "REJSC",
        NavSystem::Glonass => "GEJSC",
        NavSystem::Galileo => "GRJSC",
        NavSystem::Beidou => "GREJS",
        NavSystem::Qzss => "GRESC",
    }
}

/// The names of the navigation files of the systems `produced`, in order.
pub open spec fn bundle_members(
    station: Seq<u8>,
    country: Seq<u8>,
    t: UtcTime,
    produced: Seq<NavSystem>,
) -> Seq<Seq<u8>> {
    Seq::new(
        produced.len(),
        |i: int| navigation_name(station, country, t, nav_suffix(produced[i])),
    )
}

/// Names the files to bundle once every system has been tried: those of
/// the systems whose file was written. Where no system gave a file, there
/// is no bundle and the hour has no navigation data.
pub fn plan_navigation_bundle(info: &StationInfo, t: &UtcTime, produced: &[NavSystem]) -> (r: Option<
    Vec<Vec<u8>>,
>)
    requires
        nameable(*t),
    ensures
        match r {
            Some(names) => produced.len() > 0 && views(names@) == bundle_members(
                info.station@,
                info.country@,
                *t,
                produced@,
            ),
            None => produced.len() == 0,
        },
{
    if produced.len() == 0 {
        return None;
    }
    let mut names: Vec<Vec<u8>> = Vec::new();
    let mut i: usize = 0;
    while i < produced.len()
        invariant
            i <= produced.len(),
            nameable(*t),
            names@.len() == i,
            forall|j: int|
                0 <= j < i ==> (#[trigger] names@[j])@ == navigation_name(
                    info.station@,
                    info.country@,
                    *t,
                    nav_suffix(produced@[j]),
                ),
        decreases produced.len() - i,
    {
        let suffix = nav_system_suffix(produced[i]);
        names.push(navigation_file_name(info, t, ascii_bytes(suffix)));
        i += 1;
    }
    proof {
        assert(views(names@) =~= bundle_members(info.station@, info.country@, *t, produced@));
    }
    Some(names)
}

/// What the compression crate makes of a run of bytes: a gzip stream at
/// the crate's default level, with no name and no time in its header, or
/// nothing where its encoder reports an error. The encoder writes into
/// memory and reads nothing but the bytes, so the same bytes give the same
/// outcome.
pub uninterp spec fn gzip_of(data: Seq<u8>) -> Option<Seq<u8>>;

/// The bytes of a compression's outcome.
pub open spec fn compressed_view(r: Option<Vec<u8>>) -> Option<Seq<u8>> {
    match r {
        Some(gz) => Some(gz@),
        None => None,
    }
}

/// Calls `GzEncoder::new` with `Compression::default()` on an empty buffer,
/// writes the data through it and calls `GzEncoder::finish`: the gzip stream
/// of the data, or nothing if the encoder reports an error. Which of the
/// two, and which stream, depends on the data alone.
#[verifier::external_body]
fn gzip_compress(data: &[u8]) -> (r: Option<Vec<u8>>)
    ensures
        compressed_view(r) == gzip_of(data@),
{
    let mut encoder = GzEncoder::new(Vec::new(), Compression::default());
    match encoder.write_all(data) {
        Ok(()) => encoder.finish().ok(),
        Err(_) => None,
    }
}

/// A compressed file: its name and what it holds.
#[derive(Clone, Debug)]
pub struct GzFile {
    pub name: Vec<u8>,
    pub data: Vec<u8>,
}

/// A compressed file as plain values.
pub open spec fn gz_view(f: Option<GzFile>) -> Option<(Seq<u8>, Seq<u8>)> {
    match f {
        Some(f) => Some((f.name@, f.data@)),
        None => None,
    }
}

/// What the compression of a file gives: the file's name with `.gz` for
/// the compressed bytes, nothing where there are none.
pub open spec fn gz_named(name: Seq<u8>, compressed: Option<Seq<u8>>) -> Option<
    (Seq<u8>, Seq<u8>),
> {
    match compressed {
        Some(data) => Some((gz_name(name), data)),
        None => None,
    }
}

/// Names what the compression of a file gave: the file's name with `.gz`
/// for the compressed bytes, nothing where there are none.
pub fn gz_file_of(name: &[u8], compressed: Option<Vec<u8>>) -> (r: Option<GzFile>)
    ensures
        gz_view(r) == gz_named(name@, compressed_view(compressed)),
{
    match compressed {
        Some(data) => Some(GzFile { name: gz_file_name(name), data }),
        None => None,
    }
}

/// Compresses a file: the result goes by the file's name with `.gz` and
/// holds the gzip stream of the file's bytes. There is a result exactly
/// where the compression crate gives a stream for these bytes.
pub fn gzip_file(name: &[u8], data: &[u8]) -> (r: Option<GzFile>)
    ensures
        gz_view(r) == gz_named(name@, gzip_of(data@)),
{
    gz_file_of(name, gzip_compress(data))
}

/// The arguments of the run that only asks the converter for its help
/// text, to see that it can be run.
pub open spec fn availability_args() -> Seq<(bool, Seq<u8>)> {
    seq![plain(lit("-h"@))]
}

/// Builds the command line that shows whether the converter can be run.
pub fn availability_command() -> (r: Vec<CommandArg>)
    ensures
        arg_views(r@) == availability_args(),
{
    proof {
        reveal_strlit("-h");
    }
    let mut args: Vec<CommandArg> = Vec::new();
    proof {
        assert(arg_views(args@) =~= Seq::<(bool, Seq<u8>)>::empty());
    }
    push_flag(&mut args, "-h");
    proof {
        assert(arg_views(args@) =~= availability_args());
    }
    args
}

/// The directory, below the data directory, that holds the workspaces.
pub open spec fn workspace_root() -> Seq<u8> {
    lit(".convert-work"@)
}

/// The name of the workspace of one conversion: the hour's key, the number
/// of the process and the time of creation, so that no two conversions
/// share one.
pub open spec fn workspace_name_of(t: UtcTime, process: u32, nanos: u64) -> Seq<u8> {
    key_of(t) + lit("_"@) + decimal_of(process as nat) + lit("_"@) + decimal_of(nanos as nat)
}

/// Writes the name of the directory that holds the workspaces.
pub fn workspace_root_name() -> (r: Vec<u8>)
    ensures
        r@ == workspace_root(),
{
    proof {
        reveal_strlit(".convert-work");
    }
    let mut out: Vec<u8> = Vec::new();
    push_text(&mut out, ".convert-work");
    proof {
        assert(out@ =~= workspace_root());
    }
    out
}

/// Writes the name of the workspace of one conversion.
pub fn workspace_name(t: &UtcTime, process: u32, nanos: u64) -> (r: Vec<u8>)
    requires
        nameable(*t),
    ensures
        r@ == workspace_name_of(*t, process, nanos),
{
    proof {
        reveal_strlit("_");
    }
    let mut out: Vec<u8> = crate::hours::hour_key(t);
    push_text(&mut out, "_");
    push_decimal(&mut out, process as u64);
    push_text(&mut out, "_");
    push_decimal(&mut out, nanos);
    proof {
        assert(out@ =~= workspace_name_of(*t, process, nanos));
    }
    out
}

} // verus!
