use gnss2tec_logger::hours::{
    convert_recent_hours, day_dir, enqueue_startup_catchup_hours, epoch_token, floor_to_hour, hour_key, hour_label,
    nameable_time, segment_file_name, utc_time, year_dir, ConversionJob, PlanError, UtcTime,
};
use gnss2tec_logger::products::{list_hour_ubx_files, FileInfo};

#[test]
fn hour_starts_are_multiples_of_an_hour() {
    assert_eq!(floor_to_hour(1704103199), 1704099600);
    assert_eq!(floor_to_hour(1704103200), 1704103200);
    assert_eq!(floor_to_hour(1704099600), 1704099600);
    assert_eq!(floor_to_hour(0), 0);
    assert_eq!(floor_to_hour(3599), 0);
}

#[test]
fn hours_before_1970_are_floored_downwards() {
    assert_eq!(floor_to_hour(-1), -3600);
    assert_eq!(floor_to_hour(-3600), -3600);
    assert_eq!(floor_to_hour(-3601), -7200);
}

#[test]
fn moments_are_taken_apart() {
    assert_eq!(
        utc_time(1704103199),
        Some(UtcTime { year: 2024, month: 1, day: 1, ordinal: 1, hour: 9, minute: 59, second: 59 })
    );
    assert_eq!(
        utc_time(951782400),
        Some(UtcTime { year: 2000, month: 2, day: 29, ordinal: 60, hour: 0, minute: 0, second: 0 })
    );
    assert_eq!(
        utc_time(1735689599),
        Some(UtcTime {
            year: 2024,
            month: 12,
            day: 31,
            ordinal: 366,
            hour: 23,
            minute: 59,
            second: 59
        })
    );
    assert_eq!(
        utc_time(-1),
        Some(UtcTime {
            year: 1969,
            month: 12,
            day: 31,
            ordinal: 365,
            hour: 23,
            minute: 59,
            second: 59
        })
    );
    assert_eq!(
        utc_time(0),
        Some(UtcTime { year: 1970, month: 1, day: 1, ordinal: 1, hour: 0, minute: 0, second: 0 })
    );
}

#[test]
fn moments_outside_the_calendar_have_no_date() {
    assert_eq!(utc_time(i64::MAX), None);
    assert_eq!(utc_time(i64::MIN), None);
    assert_eq!(utc_time(86400 * 100_000_000), None);
}

#[test]
fn names_are_written_for_years_of_four_digits() {
    assert_eq!(nameable_time(253402300799).unwrap().year, 9999);
    assert_eq!(nameable_time(253402300800), None);
    assert_eq!(utc_time(253402300800).unwrap().year, 10000);
    assert_eq!(nameable_time(-62167219200).unwrap().year, 0);
    assert_eq!(nameable_time(-62167219201), None);
}

#[test]
fn names_of_an_hour() {
    let t = nameable_time(1704103199).unwrap();
    assert_eq!(hour_key(&t), b"20240101_09".to_vec());
    assert_eq!(segment_file_name(&t), b"20240101_095959.ubx".to_vec());
    assert_eq!(hour_label(&t), b"2024-01-01 09:00".to_vec());
    assert_eq!(year_dir(&t), b"2024".to_vec());
    assert_eq!(day_dir(&t), b"001".to_vec());
    assert_eq!(epoch_token(&t), b"20240010900".to_vec());
}

#[test]
fn names_are_zero_padded() {
    let t = nameable_time(-62167219200 + 3 * 3600 + 4 * 60 + 5).unwrap();
    assert_eq!(hour_key(&t), b"00000101_03".to_vec());
    assert_eq!(segment_file_name(&t), b"00000101_030405.ubx".to_vec());
    let leap = nameable_time(1709251199).unwrap();
    assert_eq!(hour_key(&leap), b"20240229_23".to_vec());
    assert_eq!(day_dir(&leap), b"060".to_vec());
    assert_eq!(epoch_token(&leap), b"20240602300".to_vec());
    let last = nameable_time(1735689599).unwrap();
    assert_eq!(day_dir(&last), b"366".to_vec());
}

#[test]
fn segment_is_found_under_the_key_of_its_hour() {
    let opened = nameable_time(1704103199).unwrap();
    let hour = nameable_time(floor_to_hour(1704103199)).unwrap();
    let listing = vec![FileInfo {
        name: segment_file_name(&opened),
        is_file: true,
        modified: None,
        len: 1,
    }];
    assert_eq!(list_hour_ubx_files(&listing, &hour_key(&hour)), vec![segment_file_name(&opened)]);
}

#[test]
fn catchup_plan_of_one_day() {
    let now = 1704103199;
    let jobs = enqueue_startup_catchup_hours(now, 1, 1);
    assert_eq!(jobs.len(), 24);
    assert_eq!(jobs[0], ConversionJob { hour_start: 1704096000 });
    assert_eq!(jobs[23], ConversionJob { hour_start: 1704096000 - 23 * 3600 });
    let mut keys = Vec::new();
    for pair in jobs.windows(2) {
        assert_eq!(pair[1].hour_start, pair[0].hour_start - 3600);
    }
    for job in jobs.iter() {
        assert_eq!(job.hour_start % 3600, 0);
        keys.push(hour_key(&nameable_time(job.hour_start).unwrap()));
    }
    assert_eq!(keys[0], b"20240101_08".to_vec());
    assert_eq!(keys[8], b"20240101_00".to_vec());
    assert_eq!(keys[9], b"20231231_23".to_vec());
    assert_eq!(keys[23], b"20231231_09".to_vec());
    for pair in keys.windows(2) {
        assert!(pair[0] > pair[1]);
    }
}

#[test]
fn catchup_plan_sizes_and_shifts() {
    assert_eq!(enqueue_startup_catchup_hours(1704103199, 1, 0).len(), 0);
    assert_eq!(enqueue_startup_catchup_hours(1704103199, 0, 3).len(), 72);
    assert_eq!(
        enqueue_startup_catchup_hours(1704103199, 0, 1)[0],
        ConversionJob { hour_start: 1704099600 }
    );
    assert_eq!(
        enqueue_startup_catchup_hours(1704103200, 2, 1)[0],
        ConversionJob { hour_start: 1704096000 }
    );
}

#[test]
fn conversion_run_wants_a_day_at_least() {
    assert_eq!(convert_recent_hours(1704103199, 1, 0), Err(PlanError::NoDays));
    let jobs = convert_recent_hours(1704103199, 1, 2).unwrap();
    assert_eq!(jobs.len(), 48);
    assert_eq!(jobs[0], ConversionJob { hour_start: 1704096000 });
    assert_eq!(jobs, enqueue_startup_catchup_hours(1704103199, 1, 2));
}

#[test]
fn later_segments_of_an_hour_have_later_names() {
    let stamps = [1704099600, 1704099601, 1704099659, 1704099660, 1704100199, 1704103199];
    let names: Vec<Vec<u8>> =
        stamps.iter().map(|s| segment_file_name(&nameable_time(*s).unwrap())).collect();
    assert_eq!(names[0], b"20240101_090000.ubx".to_vec());
    assert_eq!(names[3], b"20240101_090100.ubx".to_vec());
    for pair in names.windows(2) {
        assert!(pair[0] < pair[1]);
    }
}
