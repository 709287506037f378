use flate2::read::GzDecoder;
use gnss2tec_logger::args::ConvertArgs;
use gnss2tec_logger::converter::{
    all_nav_systems, availability_command, check_converter_options, command_failure_message, gz_file_name, gz_file_of,
    gzip_file, make_availability_label, make_navigation_label, make_step_label,
    merged_file_name, nav_system_excluded, nav_system_suffix, navigation_command,
    navigation_file_name, navset_file_name, observation_command, observation_file_name,
    plan_navigation_bundle, resolve_convbin_program, station_info, workspace_name,
    workspace_root_name, CommandArg, ConverterOptions,
    NavOutputFormat, NavSystem, ObsOutputFormat, OptionsError, StationInfo,
};
use gnss2tec_logger::hours::nameable_time;
use gnss2tec_logger::products::{classify_output_name, OutputKind};
use std::io::Read;

fn station() -> StationInfo {
    StationInfo {
        station: b"NJIT".to_vec(),
        country: b"USA".to_vec(),
        receiver_type: b"U-Blox ZED F9P/02B-00".to_vec(),
        antenna_type: b"TOPGNSS AN-105L".to_vec(),
        observer: b"H. Kim/NJIT".to_vec(),
    }
}

fn shown(args: &[CommandArg]) -> Vec<String> {
    args.iter()
        .map(|a| {
            let text = String::from_utf8(a.text.clone()).unwrap();
            if a.in_workspace {
                format!("<work>/{}", text)
            } else {
                text
            }
        })
        .collect()
}

#[test]
fn options_are_checked() {
    let good = ConverterOptions {
        obs_sampling_secs: 1,
        obs_output_format: ObsOutputFormat::Rinex,
        nav_output_format: NavOutputFormat::Mixed,
    };
    assert_eq!(check_converter_options(&good), Ok(()));
    let zero = ConverterOptions { obs_sampling_secs: 0, ..good };
    assert_eq!(check_converter_options(&zero), Err(OptionsError::ZeroSampling));
    let compact = ConverterOptions { obs_output_format: ObsOutputFormat::CompactRinex, ..good };
    assert_eq!(check_converter_options(&compact), Err(OptionsError::UnsupportedObservationFormat));
    let both = ConverterOptions { obs_sampling_secs: 0, ..compact };
    assert_eq!(check_converter_options(&both), Err(OptionsError::ZeroSampling));
}

#[test]
fn missing_program_falls_back_to_the_search_path() {
    assert_eq!(
        resolve_convbin_program(b"/opt/bin/convbin", true),
        (b"/opt/bin/convbin".to_vec(), false)
    );
    assert_eq!(resolve_convbin_program(b"/opt/bin/convbin", false), (b"convbin".to_vec(), true));
}

#[test]
fn labels_tell_of_the_fallback() {
    assert_eq!(
        make_step_label(b"convbin observation conversion", b"/x/convbin", false),
        b"convbin observation conversion".to_vec()
    );
    assert_eq!(
        make_step_label(b"convbin observation conversion", b"/x/convbin", true),
        b"convbin observation conversion (requested /x/convbin not found; used PATH lookup)"
            .to_vec()
    );
    assert_eq!(
        make_availability_label(b"/x/convbin", false),
        b"convbin availability check (/x/convbin)".to_vec()
    );
    assert_eq!(
        make_availability_label(b"/x/convbin", true),
        b"convbin availability check (requested /x/convbin not found; used PATH lookup)".to_vec()
    );
    assert_eq!(
        make_navigation_label(b"mixed", b"/x/convbin", false),
        b"convbin navigation conversion (mixed)".to_vec()
    );
    assert_eq!(
        make_navigation_label(b"constellation GN", b"/x/convbin", true),
        b"convbin navigation conversion (constellation GN, requested /x/convbin not found; used PATH lookup)"
            .to_vec()
    );
}

#[test]
fn failure_message_carries_both_outputs() {
    assert_eq!(
        command_failure_message(b"gzip", b"exit status: 1", b"  out \n", b"\n\terr line\r\n"),
        b"gzip failed with status exit status: 1.\nstdout:\nout\nstderr:\nerr line".to_vec()
    );
    assert_eq!(
        command_failure_message(b"x", b"signal: 9", b"", b"   "),
        b"x failed with status signal: 9.\nstdout:\n\nstderr:\n".to_vec()
    );
}

#[test]
fn station_is_taken_from_the_settings() {
    let args = ConvertArgs {
        station: "NJIT".to_string(),
        country: "USA".to_string(),
        receiver_type: "U-Blox ZED F9P/02B-00".to_string(),
        antenna_type: "TOPGNSS AN-105L".to_string(),
        observer: "H. Kim/NJIT".to_string(),
        shift_hours: 1,
        max_days_back: 3,
        data_dir: "data".to_string(),
        archive_dir: "archive".to_string(),
        lock_file: "convert.lock".to_string(),
        ubx2rinex_path: "ubx2rinex".to_string(),
        skip_nav: false,
        keep_ubx: false,
    };
    let info = station_info(&args);
    assert_eq!(info.station, b"NJIT".to_vec());
    assert_eq!(info.country, b"USA".to_vec());
    assert_eq!(info.receiver_type, b"U-Blox ZED F9P/02B-00".to_vec());
    assert_eq!(info.antenna_type, b"TOPGNSS AN-105L".to_vec());
    assert_eq!(info.observer, b"H. Kim/NJIT".to_vec());
}

#[test]
fn product_names_of_an_hour() {
    let t = nameable_time(1704099600).unwrap();
    let info = station();
    assert_eq!(
        observation_file_name(&info, &t, 1),
        b"NJIT00USA_R_20240010900_01H_01S_MO.rnx".to_vec()
    );
    assert_eq!(
        observation_file_name(&info, &t, 120),
        b"NJIT00USA_R_20240010900_01H_120S_MO.rnx".to_vec()
    );
    assert_eq!(
        navigation_file_name(&info, &t, b"MN"),
        b"NJIT00USA_R_20240010900_01H_MN.rnx".to_vec()
    );
    assert_eq!(navset_file_name(&info, &t), b"NJIT00USA_R_20240010900_01H_NAVSET.tar.gz".to_vec());
    assert_eq!(merged_file_name(&t), b"merged_20240101_09.ubx".to_vec());
    assert_eq!(gz_file_name(b"a.rnx"), b"a.rnx.gz".to_vec());
}

#[test]
fn product_names_are_classified_as_what_they_are() {
    let t = nameable_time(1704099600).unwrap();
    let info = station();
    assert_eq!(
        classify_output_name(&gz_file_name(&observation_file_name(&info, &t, 1))),
        OutputKind::Observation
    );
    assert_eq!(
        classify_output_name(&gz_file_name(&navigation_file_name(&info, &t, b"MN"))),
        OutputKind::Navigation
    );
    assert_eq!(classify_output_name(&navset_file_name(&info, &t)), OutputKind::Navigation);
    assert_eq!(classify_output_name(&merged_file_name(&t)), OutputKind::Other);
}

#[test]
fn observation_command_line() {
    let args = observation_command(
        &station(),
        30,
        b"NJIT00USA_R_20240010900_01H_30S_MO.rnx",
        b"merged_20240101_09.ubx",
    );
    assert_eq!(
        shown(&args),
        vec![
            "-r",
            "ubx",
            "-v",
            "3.04",
            "-ti",
            "30",
            "-hm",
            "NJIT00",
            "-ho",
            "H. Kim/NJIT/USA",
            "-hr",
            "NA/U-Blox ZED F9P/02B-00/NA",
            "-ha",
            "NA/TOPGNSS AN-105L",
            "-o",
            "<work>/NJIT00USA_R_20240010900_01H_30S_MO.rnx",
            "<work>/merged_20240101_09.ubx",
        ]
    );
}

#[test]
fn navigation_command_line() {
    let args = navigation_command(&station(), b"", b"out_MN.rnx", b"merged.ubx");
    assert_eq!(
        shown(&args),
        vec![
            "-r",
            "ubx",
            "-v",
            "3.04",
            "-hm",
            "NJIT00",
            "-ho",
            "H. Kim/NJIT/USA",
            "-hr",
            "NA/U-Blox ZED F9P/02B-00/NA",
            "-ha",
            "NA/TOPGNSS AN-105L",
            "-n",
            "<work>/out_MN.rnx",
            "<work>/merged.ubx",
        ]
    );
    let args = navigation_command(
        &station(),
        nav_system_excluded(NavSystem::Galileo).as_bytes(),
        b"out_EN.rnx",
        b"merged.ubx",
    );
    let line = shown(&args);
    assert_eq!(
        line[12..],
        ["-y", "G", "-y", "R", "-y", "J", "-y", "S", "-y", "C", "-n", "<work>/out_EN.rnx", "<work>/merged.ubx"]
    );
}

#[test]
fn navigation_systems_and_their_files() {
    assert_eq!(
        all_nav_systems(),
        vec![
            NavSystem::Gps,
            NavSystem::Glonass,
            NavSystem::Galileo,
            NavSystem::Beidou,
            NavSystem::Qzss
        ]
    );
    let expected = [("GN", "REJSC"), ("RN", "GEJSC"), ("EN", "GRJSC"), ("CN", "GREJS"), ("JN", "GRESC")];
    for (system, (suffix, excluded)) in all_nav_systems().iter().zip(expected.iter()) {
        assert_eq!(nav_system_suffix(*system), *suffix);
        assert_eq!(nav_system_excluded(*system), *excluded);
    }
}

#[test]
fn navigation_bundle_holds_what_was_produced() {
    let t = nameable_time(1704099600).unwrap();
    let info = station();
    assert_eq!(plan_navigation_bundle(&info, &t, &[]), None);
    assert_eq!(
        plan_navigation_bundle(&info, &t, &[NavSystem::Gps, NavSystem::Beidou]),
        Some(vec![
            b"NJIT00USA_R_20240010900_01H_GN.rnx".to_vec(),
            b"NJIT00USA_R_20240010900_01H_CN.rnx".to_vec(),
        ])
    );
}

#[test]
fn compressed_file_unpacks_to_what_went_in() {
    let data: Vec<u8> = (0..20_000u32).map(|i| (i % 251) as u8).collect();
    let gz = gzip_file(b"NJIT_MO.rnx", &data).unwrap();
    assert_eq!(gz.name, b"NJIT_MO.rnx.gz".to_vec());
    assert_eq!(gz.data[0..3], [0x1F, 0x8B, 0x08]);
    assert!(gz.data.len() < data.len());
    let mut unpacked = Vec::new();
    GzDecoder::new(&gz.data[..]).read_to_end(&mut unpacked).unwrap();
    assert_eq!(unpacked, data);
}

#[test]
fn compression_is_the_same_every_time() {
    let a = gzip_file(b"a", b"the same bytes in").unwrap();
    let b = gzip_file(b"a", b"the same bytes in").unwrap();
    assert_eq!(a.data, b.data);
    let empty = gzip_file(b"e", b"").unwrap();
    let mut unpacked = Vec::new();
    GzDecoder::new(&empty.data[..]).read_to_end(&mut unpacked).unwrap();
    assert_eq!(unpacked.len(), 0);
}

#[test]
fn compressed_bytes_get_the_gz_name() {
    let f = gz_file_of(b"x.rnx", Some(vec![1, 2, 3])).unwrap();
    assert_eq!((f.name, f.data), (b"x.rnx.gz".to_vec(), vec![1, 2, 3]));
    assert!(gz_file_of(b"x.rnx", None).is_none());
}

#[test]
fn availability_is_asked_with_the_help_flag() {
    assert_eq!(shown(&availability_command()), vec!["-h"]);
}

#[test]
fn workspace_is_named_by_hour_process_and_time() {
    let t = nameable_time(1704099600).unwrap();
    assert_eq!(workspace_root_name(), b".convert-work".to_vec());
    assert_eq!(
        workspace_name(&t, 4711, 1704103200123456789),
        b"20240101_09_4711_1704103200123456789".to_vec()
    );
    assert_eq!(workspace_name(&t, 0, 0), b"20240101_09_0_0".to_vec());
}
