use gnss2tec_logger::args::NmeaLogFormat;
use gnss2tec_logger::nmea::{
    emit_sentence_logs, field, is_allowed_nmea_byte, is_watched_message, kind_of_index, nz,
    parse_lat, parse_lon, parse_message_id, parse_nmea_coord, parse_nmea_fields,
    parse_watched_kind, position_fields, summarize_gbs, summarize_gns, summarize_gsa,
    summarize_gst, summarize_gsv, summarize_nmea_plain, summarize_rmc, talker_id, CoordTexts,
    NmeaMonitor, NmeaSentenceCollector, SentenceKind, MAX_SENTENCE_LEN,
};

fn split_fields(text: &str) -> Vec<Vec<u8>> {
    text.split(',').map(|s| s.as_bytes().to_vec()).collect()
}

fn dashes() -> CoordTexts {
    CoordTexts { lat: b"-".to_vec(), lon: b"-".to_vec(), speed: b"-".to_vec() }
}

fn collect(chunks: &[&[u8]]) -> Vec<Vec<u8>> {
    let mut collector = NmeaSentenceCollector::new();
    let mut out = Vec::new();
    for chunk in chunks {
        collector.push_bytes(chunk, &mut out);
    }
    out
}

#[test]
fn allowed_bytes_are_printable_ascii_and_carriage_return() {
    assert!(is_allowed_nmea_byte(b'\r'));
    assert!(is_allowed_nmea_byte(0x20));
    assert!(is_allowed_nmea_byte(0x7E));
    assert!(is_allowed_nmea_byte(b'$'));
    assert!(!is_allowed_nmea_byte(0x1F));
    assert!(!is_allowed_nmea_byte(0x7F));
    assert!(!is_allowed_nmea_byte(b'\n'));
    assert!(!is_allowed_nmea_byte(0x00));
    assert!(!is_allowed_nmea_byte(0xB5));
}

#[test]
fn complete_sentence_is_cut_out() {
    let out = collect(&[b"\xB5\x62junk$GNRMC,123519,A*6A\r\nmore"]);
    assert_eq!(out, vec![b"$GNRMC,123519,A*6A".to_vec()]);
}

#[test]
fn sentence_may_arrive_in_pieces() {
    let out = collect(&[b"$GNR", b"MC,1", b"", b"*00\r", b"\n$GNGSA,A\n"]);
    assert_eq!(out, vec![b"$GNRMC,1*00".to_vec(), b"$GNGSA,A".to_vec()]);
}

#[test]
fn all_trailing_carriage_returns_are_stripped() {
    let out = collect(&[b"$GNGST,1\r\r\r\n"]);
    assert_eq!(out, vec![b"$GNGST,1".to_vec()]);
    let out = collect(&[b"$\n"]);
    assert_eq!(out, vec![b"$".to_vec()]);
}

#[test]
fn dollar_restarts_capture() {
    let out = collect(&[b"$GNRMC,123519,A,4807.038,N*6A$GNGSA,A,3*2C\r\n"]);
    assert_eq!(out, vec![b"$GNGSA,A,3*2C".to_vec()]);
    let out = collect(&[b"$GNRMC,123519,A*6A\r$$$GNGBS,1\n"]);
    assert_eq!(out, vec![b"$GNGBS,1".to_vec()]);
}

#[test]
fn disallowed_byte_drops_the_capture() {
    let out = collect(&[b"$GNRMC,12\x01,A*6A\r\n$GNGSA,A\r\n"]);
    assert_eq!(out, vec![b"$GNGSA,A".to_vec()]);
    let out = collect(&[b"$GNRMC\xFF\nGSA\n"]);
    assert_eq!(out.len(), 0);
}

#[test]
fn sentence_longer_than_the_limit_is_dropped() {
    let mut fits = vec![b'$'];
    fits.extend(std::iter::repeat(b'A').take(MAX_SENTENCE_LEN - 1));
    let mut stream = fits.clone();
    stream.push(b'\n');
    assert_eq!(collect(&[&stream]), vec![fits.clone()]);

    let mut too_long = fits.clone();
    too_long.push(b'A');
    too_long.push(b'\n');
    assert_eq!(collect(&[&too_long]).len(), 0);
}

#[test]
fn collector_state_is_visible() {
    let mut collector = NmeaSentenceCollector::new();
    let mut out = Vec::new();
    assert_eq!(collector.state(), (false, 0));
    collector.push_bytes(b"xx$GN", &mut out);
    assert_eq!(collector.state(), (true, 3));
    collector.push_bytes(b"\x00", &mut out);
    assert_eq!(collector.state(), (false, 0));
    assert_eq!(out.len(), 0);
}

#[test]
fn message_id_is_the_end_of_the_first_field() {
    assert_eq!(parse_message_id(b"$GNRMC,123519,A*6A"), Some(b"RMC".to_vec()));
    assert_eq!(parse_message_id(b"$GPGSV*7F"), Some(b"GSV".to_vec()));
    assert_eq!(parse_message_id(b"$PUBX,00"), Some(b"UBX".to_vec()));
    assert_eq!(parse_message_id(b"$GSA"), Some(b"GSA".to_vec()));
    assert_eq!(parse_message_id(b"$GN,RMC"), None);
    assert_eq!(parse_message_id(b"$GN*RMC"), None);
    assert_eq!(parse_message_id(b"GNRMC,1"), None);
    assert_eq!(parse_message_id(b""), None);
    assert_eq!(parse_message_id(b"$"), None);
}

#[test]
fn watch_list_holds_six_types() {
    for id in [&b"GSA"[..], b"GSV", b"GNS", b"RMC", b"GBS", b"GST"] {
        assert!(is_watched_message(id));
    }
    for id in [&b"GGA"[..], b"gsa", b"", b"GSAX", b"VTG"] {
        assert!(!is_watched_message(id));
    }
    assert_eq!(parse_watched_kind(b"GNS"), Some(SentenceKind::Gns));
    assert_eq!(parse_watched_kind(b"ZDA"), None);
}

#[test]
fn kinds_are_ranked_in_reporting_order() {
    let order = [
        SentenceKind::Gsa,
        SentenceKind::Gsv,
        SentenceKind::Gns,
        SentenceKind::Rmc,
        SentenceKind::Gbs,
        SentenceKind::Gst,
    ];
    let names = ["GSA", "GSV", "GNS", "RMC", "GBS", "GST"];
    for (i, kind) in order.iter().enumerate() {
        assert_eq!(kind.index(), i);
        assert_eq!(kind_of_index(i), *kind);
        assert_eq!(kind.name(), names[i]);
    }
}

#[test]
fn fields_are_split_at_commas_before_the_star() {
    let fields = parse_nmea_fields(b"$GNRMC,123519,,A*6A,zz").unwrap();
    assert_eq!(fields, split_fields("GNRMC,123519,,A"));
    assert_eq!(parse_nmea_fields(b"$").unwrap(), vec![Vec::<u8>::new()]);
    assert_eq!(parse_nmea_fields(b"$*").unwrap(), vec![Vec::<u8>::new()]);
    assert_eq!(parse_nmea_fields(b"GNRMC,1"), None);
    assert_eq!(parse_nmea_fields(b""), None);
}

#[test]
fn missing_fields_read_as_empty_and_print_as_dash() {
    let fields = split_fields("GNRMC,123519,");
    assert_eq!(field(&fields, 1), b"123519".to_vec());
    assert_eq!(field(&fields, 2), Vec::<u8>::new());
    assert_eq!(field(&fields, 9), Vec::<u8>::new());
    assert_eq!(nz(Vec::new()), b"-".to_vec());
    assert_eq!(nz(b"1.5".to_vec()), b"1.5".to_vec());
}

#[test]
fn talker_is_the_first_two_bytes() {
    assert_eq!(talker_id(b"GPGSV"), Some(b"GP".to_vec()));
    assert_eq!(talker_id(b"GP"), Some(b"GP".to_vec()));
    assert_eq!(talker_id(b"G"), None);
    assert_eq!(talker_id(b""), None);
}

#[test]
fn gsa_summary_counts_satellites() {
    let fields = split_fields("GNGSA,A,3,01,02,03,,,,,,,,,,1.5,0.9,1.2");
    assert_eq!(fields.len(), 18);
    assert_eq!(
        summarize_gsa(&fields).unwrap(),
        b"mode=automatic fix=3D sats_used=3 pdop=1.5 hdop=0.9 vdop=1.2".to_vec()
    );
    let full = split_fields("GNGSA,M,2,01,02,03,04,05,06,07,08,09,10,11,12,,,");
    assert_eq!(
        summarize_gsa(&full).unwrap(),
        b"mode=manual fix=2D sats_used=12 pdop=- hdop=- vdop=-".to_vec()
    );
}

#[test]
fn gsa_summary_of_a_short_sentence() {
    let fields = split_fields("GNGSA,X,1,01,02");
    assert_eq!(
        summarize_gsa(&fields).unwrap(),
        b"mode=unknown fix=no-fix sats_used=0 pdop=- hdop=- vdop=-".to_vec()
    );
    assert_eq!(
        summarize_gsa(&split_fields("GNGSA")).unwrap(),
        b"mode=unknown fix=unknown sats_used=0 pdop=- hdop=- vdop=-".to_vec()
    );
    assert_eq!(summarize_gsa(&[]), None);
}

#[test]
fn gsv_summary_names_message_and_talker() {
    let fields = split_fields("GPGSV,3,1,11,03,03,111,00");
    assert_eq!(
        summarize_gsv(&fields).unwrap(),
        b"msg=1/3 sats_in_view=11 talker=GP".to_vec()
    );
    assert_eq!(
        summarize_gsv(&split_fields("G")).unwrap(),
        b"msg=-/- sats_in_view=- talker=-".to_vec()
    );
    assert_eq!(summarize_gsv(&[]), None);
}

#[test]
fn gns_summary_places_the_position() {
    let fields = split_fields("GNGNS,122310.00,4807.038,N,01131.000,E,AANN,12,0.8,545.4,46.9");
    assert_eq!(
        summarize_gns(&fields, b"48.117300", b"11.516667").unwrap(),
        b"time=122310.00 mode=AANN sats_used=12 hdop=0.8 lat=48.117300 lon=11.516667 alt_m=545.4"
            .to_vec()
    );
    assert_eq!(summarize_gns(&[], b"-", b"-"), None);
}

#[test]
fn rmc_summary_places_position_and_speed() {
    let fields = split_fields("GNRMC,123519,A,4807.038,N,01131.000,E,022.4,084.4,230394,003.1,W");
    assert_eq!(
        summarize_rmc(&fields, b"48.117300", b"11.516667", b"22.40 kn/41.48 kmh").unwrap(),
        b"status=valid time=123519 date=230394 lat=48.117300 lon=11.516667 speed=22.40 kn/41.48 kmh course_deg=084.4"
            .to_vec()
    );
    let void = split_fields("GNRMC,,V");
    assert_eq!(
        summarize_rmc(&void, b"-", b"-", b"-").unwrap(),
        b"status=warning time=- date=- lat=- lon=- speed=- course_deg=-".to_vec()
    );
    assert_eq!(
        summarize_rmc(&split_fields("GNRMC,1,x"), b"-", b"-", b"-").unwrap(),
        b"status=unknown time=1 date=- lat=- lon=- speed=- course_deg=-".to_vec()
    );
}

#[test]
fn gbs_and_gst_pass_their_fields_through() {
    let gbs = split_fields("GNGBS,170556.00,3.0,2.9,8.3,,,,");
    assert_eq!(
        summarize_gbs(&gbs).unwrap(),
        b"time=170556.00 err_lat_m=3.0 err_lon_m=2.9 err_alt_m=8.3 failed_sat=- prob=- bias=- stddev=-"
            .to_vec()
    );
    let gst = split_fields("GNGST,172814.0,0.006,0.023,0.020,273.6,0.023,0.020,0.031");
    assert_eq!(
        summarize_gst(&gst).unwrap(),
        b"time=172814.0 rms_m=0.006 semi_major_m=0.023 semi_minor_m=0.020 orient_deg=273.6 sigma_lat_m=0.023 sigma_lon_m=0.020 sigma_alt_m=0.031"
            .to_vec()
    );
    assert_eq!(summarize_gbs(&[]), None);
    assert_eq!(summarize_gst(&[]), None);
}

#[test]
fn plain_summary_goes_by_message_id() {
    let sentence = b"$GPGSV,3,1,11*7F";
    assert_eq!(
        summarize_nmea_plain(b"GSV", sentence, &dashes()).unwrap(),
        b"msg=1/3 sats_in_view=11 talker=GP".to_vec()
    );
    assert_eq!(summarize_nmea_plain(b"GGA", sentence, &dashes()), None);
    assert_eq!(summarize_nmea_plain(b"GSV", b"GPGSV,3,1,11", &dashes()), None);
    // The id decides, not what the sentence says of itself.
    assert_eq!(
        summarize_nmea_plain(b"GBS", b"$GPGSV,3", &dashes()).unwrap(),
        b"time=3 err_lat_m=- err_lon_m=- err_alt_m=- failed_sat=- prob=- bias=- stddev=-".to_vec()
    );
}

#[test]
fn coordinates_are_taken_apart() {
    let lat = parse_lat(b"4807.038", b"N").unwrap();
    assert_eq!((lat.degrees, lat.minutes, lat.negative), (b"48".to_vec(), b"07.038".to_vec(), false));
    let lon = parse_lon(b"01131.000", b"W").unwrap();
    assert_eq!((lon.degrees, lon.minutes, lon.negative), (b"011".to_vec(), b"31.000".to_vec(), true));
    let south = parse_nmea_coord(b"3356.5", b"S", 2).unwrap();
    assert!(south.negative);
    let east = parse_nmea_coord(b"3356.5", b"E", 2).unwrap();
    assert!(!east.negative);
    let lower = parse_nmea_coord(b"3356.5", b"s", 2).unwrap();
    assert!(!lower.negative);
    assert!(parse_lat(b"48", b"N").is_none());
    assert!(parse_lat(b"", b"N").is_none());
    assert!(parse_lon(b"011", b"E").is_none());
}

#[test]
fn position_fields_of_each_type() {
    let rmc = split_fields("GNRMC,123519,A,4807.038,N,01131.000,W,022.4,084.4,230394");
    let p = position_fields(SentenceKind::Rmc, &rmc);
    assert_eq!(p.lat.unwrap().degrees, b"48".to_vec());
    let lon = p.lon.unwrap();
    assert_eq!(lon.minutes, b"31.000".to_vec());
    assert!(lon.negative);
    assert_eq!(p.speed_knots, b"022.4".to_vec());

    let gns = split_fields("GNGNS,122310.00,4807.038,S,01131.000,E,AANN");
    let p = position_fields(SentenceKind::Gns, &gns);
    assert!(p.lat.unwrap().negative);
    assert_eq!(p.lon.unwrap().degrees, b"011".to_vec());
    assert_eq!(p.speed_knots, Vec::<u8>::new());

    let p = position_fields(SentenceKind::Gsa, &rmc);
    assert!(p.lat.is_none());
    assert!(p.lon.is_none());
    assert_eq!(p.speed_knots, Vec::<u8>::new());
}

#[test]
fn log_lines_in_each_format() {
    let sentence = b"$GPGSV,3,1,11*7F";
    let raw = b"[NMEA:GSV:RAW] $GPGSV,3,1,11*7F".to_vec();
    let plain = b"[NMEA:GSV:PLAIN] msg=1/3 sats_in_view=11 talker=GP".to_vec();
    assert_eq!(
        emit_sentence_logs(NmeaLogFormat::Raw, SentenceKind::Gsv, sentence, &dashes()),
        vec![raw.clone()]
    );
    assert_eq!(
        emit_sentence_logs(NmeaLogFormat::Plain, SentenceKind::Gsv, sentence, &dashes()),
        vec![plain.clone()]
    );
    assert_eq!(
        emit_sentence_logs(NmeaLogFormat::Both, SentenceKind::Gsv, sentence, &dashes()),
        vec![raw, plain]
    );
    assert_eq!(
        emit_sentence_logs(NmeaLogFormat::Plain, SentenceKind::Gst, b"no dollar", &dashes()),
        vec![b"[NMEA:GST:PLAIN] unable to parse sentence".to_vec()]
    );
}

#[test]
fn monitor_keeps_the_latest_of_each_watched_type() {
    let mut monitor = NmeaMonitor::new(5, NmeaLogFormat::Raw);
    assert_eq!(monitor.interval_secs(), 5);
    assert_eq!(monitor.format(), NmeaLogFormat::Raw);
    monitor.ingest(b"$GNRMC,1*00\r\n$GNGGA,ignored\r\n$GNGSA,A,3\r\n$GNRMC,2*00\r\n");
    assert_eq!(monitor.latest_sentence(SentenceKind::Rmc), Some(b"$GNRMC,2*00".to_vec()));
    assert_eq!(monitor.latest_sentence(SentenceKind::Gsa), Some(b"$GNGSA,A,3".to_vec()));
    assert_eq!(monitor.latest_sentence(SentenceKind::Gsv), None);
    assert!(monitor.has_update(SentenceKind::Rmc));
    assert!(monitor.has_update(SentenceKind::Gsa));
    assert!(!monitor.has_update(SentenceKind::Gst));
}

#[test]
fn monitor_reports_in_priority_order_and_only_changes() {
    let mut monitor = NmeaMonitor::new(5, NmeaLogFormat::Both);
    monitor.ingest(b"$GNGST,9\n$GNRMC,1*00\r\n$GNGSA,A,3\r\n");
    assert_eq!(monitor.emit_if_due(4).len(), 0);
    assert!(monitor.has_update(SentenceKind::Rmc));

    let due = monitor.emit_if_due(5);
    let listed: Vec<(SentenceKind, Vec<u8>)> =
        due.iter().map(|e| (e.kind, e.sentence.clone())).collect();
    assert_eq!(
        listed,
        vec![
            (SentenceKind::Gsa, b"$GNGSA,A,3".to_vec()),
            (SentenceKind::Rmc, b"$GNRMC,1*00".to_vec()),
            (SentenceKind::Gst, b"$GNGST,9".to_vec()),
        ]
    );
    assert!(!monitor.has_update(SentenceKind::Rmc));
    assert_eq!(monitor.latest_sentence(SentenceKind::Rmc), Some(b"$GNRMC,1*00".to_vec()));

    assert_eq!(monitor.emit_if_due(100).len(), 0);
    monitor.ingest(b"$GNRMC,2*00\n");
    let due = monitor.emit_if_due(60);
    assert_eq!(due.len(), 1);
    assert_eq!(due[0].kind, SentenceKind::Rmc);
    assert_eq!(due[0].sentence, b"$GNRMC,2*00".to_vec());
}

#[test]
fn monitor_with_interval_zero_is_inert() {
    let mut monitor = NmeaMonitor::new(0, NmeaLogFormat::Both);
    for _ in 0..50 {
        monitor.ingest(b"$GNRMC,1*00\r\n$GNGSA,A,3\r\n$GNGST,partial");
    }
    assert_eq!(monitor.capture_state(), (false, 0));
    for kind in [SentenceKind::Gsa, SentenceKind::Rmc, SentenceKind::Gst] {
        assert_eq!(monitor.latest_sentence(kind), None);
        assert!(!monitor.has_update(kind));
    }
    assert_eq!(monitor.emit_if_due(0).len(), 0);
    assert_eq!(monitor.emit_if_due(u64::MAX).len(), 0);
    assert_eq!(monitor.maybe_emit_logs().len(), 0);
}

#[test]
fn monitor_waits_for_its_interval_by_the_clock() {
    let mut monitor = NmeaMonitor::new(3600, NmeaLogFormat::Raw);
    monitor.ingest(b"$GNRMC,1*00\r\n");
    assert_eq!(monitor.maybe_emit_logs().len(), 0);
    assert!(monitor.has_update(SentenceKind::Rmc));
}

#[test]
fn monitor_carries_a_capture_across_calls() {
    let mut monitor = NmeaMonitor::new(1, NmeaLogFormat::Raw);
    monitor.ingest(b"$GNGB");
    assert_eq!(monitor.capture_state(), (true, 5));
    assert_eq!(monitor.latest_sentence(SentenceKind::Gbs), None);
    monitor.ingest(b"S,1,2\r\n");
    assert_eq!(monitor.capture_state(), (false, 0));
    assert_eq!(monitor.latest_sentence(SentenceKind::Gbs), Some(b"$GNGBS,1,2".to_vec()));
}
