use gnss2tec_logger::products::{
    classify_output_name, classify_rinex2_short_kind, collect_changed_output_products,
    collect_output_products_in_dir, file_exists_and_nonempty, is_output_product_name,
    list_hour_ubx_files, sanitize_stem_for_temp,
    make_destination_candidate, normalize_long_output_names_for_target_hour,
    plan_archive_moves, rewrite_long_name_epoch, sampling_token_from_seconds,
    snapshot_output_products, unique_destination_name, validate_hour_outputs, FileInfo,
    MissingProduct, OutputKind, ProductSnapshot,
};

fn names(items: &[&str]) -> Vec<Vec<u8>> {
    items.iter().map(|s| s.as_bytes().to_vec()).collect()
}

fn file(name: &str) -> FileInfo {
    FileInfo { name: name.as_bytes().to_vec(), is_file: true, modified: Some(1), len: 10 }
}

fn dir(name: &str) -> FileInfo {
    FileInfo { name: name.as_bytes().to_vec(), is_file: false, modified: Some(1), len: 0 }
}

fn snap(path: &str, modified: Option<u128>, len: u64) -> ProductSnapshot {
    ProductSnapshot { path: path.as_bytes().to_vec(), modified, len }
}

#[test]
fn long_names_say_what_they_are() {
    assert_eq!(
        classify_output_name(b"NJIT00USA_R_20240010900_01H_01S_MO.rnx.gz"),
        OutputKind::Observation
    );
    assert_eq!(
        classify_output_name(b"NJIT00USA_R_20240010900_01H_MN.rnx.gz"),
        OutputKind::Navigation
    );
    assert_eq!(classify_output_name(b"njit00usa_r_20240010900_01h_mn.RNX"), OutputKind::Navigation);
    assert_eq!(
        classify_output_name(b"NJIT00USA_R_20240010900_01H_NAVSET.tar.gz"),
        OutputKind::Navigation
    );
    // A bundle is navigation data even if it says `_MO.` too.
    assert_eq!(classify_output_name(b"x_MO.y_NAVSET.TAR.GZ"), OutputKind::Navigation);
    assert_eq!(classify_output_name(b"a_MN.b_MO.c"), OutputKind::Navigation);
}

#[test]
fn extensions_count_as_observations() {
    assert_eq!(classify_output_name(b"hour.crx"), OutputKind::Observation);
    assert_eq!(classify_output_name(b"hour.CRX.GZ"), OutputKind::Observation);
    assert_eq!(classify_output_name(b"hour.rnx"), OutputKind::Observation);
    assert_eq!(classify_output_name(b"hour_GN.rnx.gz"), OutputKind::Observation);
}

#[test]
fn short_names_go_by_their_last_letter() {
    assert_eq!(classify_output_name(b"njit0010.24o"), OutputKind::Observation);
    assert_eq!(classify_output_name(b"njit0010.24d.gz"), OutputKind::Observation);
    assert_eq!(classify_output_name(b"njit0010.24N"), OutputKind::Navigation);
    assert_eq!(classify_output_name(b"njit0010.24g"), OutputKind::Navigation);
    assert_eq!(classify_output_name(b"njit0010.24l.gz"), OutputKind::Navigation);
    assert_eq!(classify_output_name(b"njit0010.24p"), OutputKind::Navigation);
    assert_eq!(classify_output_name(b"njit0010.24q"), OutputKind::Navigation);
    assert_eq!(classify_rinex2_short_kind(b"njit0010.24o"), Some(OutputKind::Observation));
    assert_eq!(classify_rinex2_short_kind(b"njit0010.24n.gz"), Some(OutputKind::Navigation));
    assert_eq!(classify_rinex2_short_kind(b"njit0010.24m"), None);
    assert_eq!(classify_rinex2_short_kind(b"njit0010."), None);
    assert_eq!(classify_rinex2_short_kind(b".gz"), None);
    assert_eq!(classify_rinex2_short_kind(b""), None);
}

#[test]
fn other_files_are_no_products() {
    for name in [&b"merged_20240101_09.ubx"[..], b"notes.txt", b"", b".gz", b"20240101_090000.ubx", b"x."] {
        assert_eq!(classify_output_name(name), OutputKind::Other);
        assert!(!is_output_product_name(name));
    }
    assert!(is_output_product_name(b"a_MO.rnx"));
    assert!(is_output_product_name(b"a.24n"));
}

#[test]
fn hour_with_observation_and_navigation_is_valid() {
    let outputs = names(&[
        "NJIT00USA_R_20240010900_01H_01S_MO.rnx.gz",
        "NJIT00USA_R_20240010900_01H_MN.rnx.gz",
    ]);
    assert!(validate_hour_outputs(&outputs, false, b"2024-01-01 09:00").is_ok());
    assert!(validate_hour_outputs(&outputs, true, b"2024-01-01 09:00").is_ok());
}

#[test]
fn hour_without_navigation_fails_and_names_the_hour() {
    let outputs = names(&["NJIT00USA_R_20240010900_01H_01S_MO.rnx.gz", "readme.txt"]);
    let err = validate_hour_outputs(&outputs, false, b"2024-01-01 09:00").unwrap_err();
    assert_eq!(err.missing, MissingProduct::Navigation);
    assert_eq!(
        err.message,
        b"no navigation product generated for 2024-01-01 09:00; collected outputs: NJIT00USA_R_20240010900_01H_01S_MO.rnx.gz, readme.txt"
            .to_vec()
    );
    assert!(validate_hour_outputs(&outputs, true, b"2024-01-01 09:00").is_ok());
}

#[test]
fn hour_without_observation_fails_first() {
    let outputs = names(&["NJIT00USA_R_20240010900_01H_MN.rnx.gz"]);
    let err = validate_hour_outputs(&outputs, true, b"H").unwrap_err();
    assert_eq!(err.missing, MissingProduct::Observation);
    assert_eq!(
        err.message,
        b"no observation product generated for H; collected outputs: NJIT00USA_R_20240010900_01H_MN.rnx.gz"
            .to_vec()
    );
    let err = validate_hour_outputs(&[], false, b"2024-01-01 09:00").unwrap_err();
    assert_eq!(err.missing, MissingProduct::Observation);
    assert_eq!(
        err.message,
        b"no observation product generated for 2024-01-01 09:00; collected outputs: ".to_vec()
    );
}

#[test]
fn sampling_token_has_two_digits_at_least() {
    assert_eq!(sampling_token_from_seconds(0), b"00S".to_vec());
    assert_eq!(sampling_token_from_seconds(1), b"01S".to_vec());
    assert_eq!(sampling_token_from_seconds(30), b"30S".to_vec());
    assert_eq!(sampling_token_from_seconds(99), b"99S".to_vec());
    assert_eq!(sampling_token_from_seconds(100), b"100S".to_vec());
    assert_eq!(sampling_token_from_seconds(4294967295), b"4294967295S".to_vec());
}

#[test]
fn epoch_of_a_long_name_is_rewritten() {
    assert_eq!(
        rewrite_long_name_epoch(b"NJIT00USA_R_20240010000_01H_01S_MO.rnx", b"20240010900"),
        Some(b"NJIT00USA_R_20240010900_01H_01S_MO.rnx".to_vec())
    );
    assert_eq!(
        rewrite_long_name_epoch(b"a_R_b_R_00000000000_x", b"11111111111"),
        None
    );
    assert_eq!(
        rewrite_long_name_epoch(b"_R_12345678901_", b"X"),
        Some(b"_R_X_".to_vec())
    );
}

#[test]
fn names_that_are_left_alone() {
    let target = b"20240010900";
    assert_eq!(rewrite_long_name_epoch(b"NJIT00USA_R_20240010900_01H_MN.rnx", target), None);
    assert_eq!(rewrite_long_name_epoch(b"NJIT00USA_R_2024001090_01H_MN.rnx", target), None);
    assert_eq!(rewrite_long_name_epoch(b"NJIT00USA_R_202400109000_01H_MN.rnx", target), None);
    assert_eq!(rewrite_long_name_epoch(b"NJIT00USA_R_2024001090a_01H_MN.rnx", target), None);
    assert_eq!(rewrite_long_name_epoch(b"NJIT00USA_R_20240010000", target), None);
    assert_eq!(rewrite_long_name_epoch(b"njit0010.24o", target), None);
    assert_eq!(rewrite_long_name_epoch(b"", target), None);
}

#[test]
fn free_name_is_taken_as_it_is() {
    let existing = names(&["b.rnx", "a.rnx.dup1"]);
    assert_eq!(unique_destination_name(&existing, b"a.rnx"), b"a.rnx".to_vec());
    assert_eq!(unique_destination_name(&[], b"a.rnx"), b"a.rnx".to_vec());
}

#[test]
fn taken_name_gets_the_first_free_suffix() {
    let existing = names(&["a.rnx"]);
    assert_eq!(unique_destination_name(&existing, b"a.rnx"), b"a.rnx.dup1".to_vec());
    let existing = names(&["a.rnx.dup2", "a.rnx", "a.rnx.dup1", "a.rnx.dup4"]);
    assert_eq!(unique_destination_name(&existing, b"a.rnx"), b"a.rnx.dup3".to_vec());
    let mut crowded = names(&["p"]);
    for k in 1..=12 {
        crowded.push(format!("p.dup{}", k).into_bytes());
    }
    assert_eq!(unique_destination_name(&crowded, b"p"), b"p.dup13".to_vec());
}

#[test]
fn candidates_are_name_then_numbered_duplicates() {
    assert_eq!(make_destination_candidate(b"a.gz", 0), b"a.gz".to_vec());
    assert_eq!(make_destination_candidate(b"a.gz", 1), b"a.gz.dup1".to_vec());
    assert_eq!(make_destination_candidate(b"a.gz", 10), b"a.gz.dup10".to_vec());
    assert_eq!(
        make_destination_candidate(b"", 18446744073709551615),
        b".dup18446744073709551615".to_vec()
    );
}

#[test]
fn archive_moves_never_collide() {
    let outputs = names(&["a_MO.rnx.gz", "a_MN.rnx.gz", "a_MO.rnx.gz"]);
    let existing = names(&["a_MO.rnx.gz", "old.txt"]);
    let moves = plan_archive_moves(&outputs, &existing);
    let pairs: Vec<(Vec<u8>, Vec<u8>)> =
        moves.iter().map(|m| (m.from.clone(), m.to.clone())).collect();
    assert_eq!(
        pairs,
        vec![
            (b"a_MO.rnx.gz".to_vec(), b"a_MO.rnx.gz.dup1".to_vec()),
            (b"a_MN.rnx.gz".to_vec(), b"a_MN.rnx.gz".to_vec()),
            (b"a_MO.rnx.gz".to_vec(), b"a_MO.rnx.gz.dup2".to_vec()),
        ]
    );
    assert_eq!(plan_archive_moves(&[], &existing).len(), 0);
}

#[test]
fn products_are_renamed_to_the_hour() {
    let outputs = names(&[
        "S00C_R_20240010000_01H_01S_MO.rnx.gz",
        "S00C_R_20240010900_01H_MN.rnx.gz",
        "plain.24o",
    ]);
    let existing = names(&[
        "S00C_R_20240010000_01H_01S_MO.rnx.gz",
        "S00C_R_20240010900_01H_MN.rnx.gz",
        "plain.24o",
        "merged_20240101_09.ubx",
    ]);
    let (renames, after) =
        normalize_long_output_names_for_target_hour(&outputs, &existing, b"20240010900");
    assert_eq!(renames.len(), 1);
    assert_eq!(renames[0].from, b"S00C_R_20240010000_01H_01S_MO.rnx.gz".to_vec());
    assert_eq!(renames[0].to, b"S00C_R_20240010900_01H_01S_MO.rnx.gz".to_vec());
    assert_eq!(
        after,
        names(&[
            "S00C_R_20240010900_01H_01S_MO.rnx.gz",
            "S00C_R_20240010900_01H_MN.rnx.gz",
            "plain.24o",
        ])
    );
}

#[test]
fn renamed_product_steps_aside_for_a_file_that_is_there() {
    let outputs = names(&["S_R_20240010000_MN.rnx", "S_R_20240010100_MN.rnx"]);
    let existing = names(&[
        "S_R_20240010000_MN.rnx",
        "S_R_20240010100_MN.rnx",
        "S_R_20240010900_MN.rnx",
    ]);
    let (renames, after) =
        normalize_long_output_names_for_target_hour(&outputs, &existing, b"20240010900");
    let pairs: Vec<(Vec<u8>, Vec<u8>)> =
        renames.iter().map(|m| (m.from.clone(), m.to.clone())).collect();
    assert_eq!(
        pairs,
        vec![
            (b"S_R_20240010000_MN.rnx".to_vec(), b"S_R_20240010900_MN.rnx.dup1".to_vec()),
            (b"S_R_20240010100_MN.rnx".to_vec(), b"S_R_20240010900_MN.rnx.dup2".to_vec()),
        ]
    );
    assert_eq!(after, names(&["S_R_20240010900_MN.rnx.dup1", "S_R_20240010900_MN.rnx.dup2"]));
}

#[test]
fn segments_of_an_hour_are_listed_in_order() {
    let listing = vec![
        file("20240101_095500.ubx"),
        file("20240101_100000.ubx"),
        file("20240101_090000.ubx"),
        file("20240101_09.txt"),
        dir("20240101_093000.ubx"),
        file("20240101_091500.UBX"),
        file("x20240101_090000.ubx"),
    ];
    assert_eq!(
        list_hour_ubx_files(&listing, b"20240101_09"),
        names(&["20240101_090000.ubx", "20240101_095500.ubx"])
    );
    assert_eq!(list_hour_ubx_files(&listing, b"20240101_11").len(), 0);
    assert_eq!(list_hour_ubx_files(&[file(".ubx")], b"").len(), 0);
    assert_eq!(list_hour_ubx_files(&[file("a.ubx")], b""), names(&["a.ubx"]));
}

#[test]
fn products_of_a_directory_are_listed_in_order() {
    let listing = vec![
        file("b_MN.rnx.gz"),
        file("merged_20240101_09.ubx"),
        dir("c_MO.rnx"),
        file("a_MO.rnx.gz"),
        file("B_MO.rnx.gz"),
    ];
    assert_eq!(
        collect_output_products_in_dir(&listing),
        names(&["B_MO.rnx.gz", "a_MO.rnx.gz", "b_MN.rnx.gz"])
    );
    assert_eq!(collect_output_products_in_dir(&[]).len(), 0);
}

#[test]
fn snapshot_records_products_only() {
    let listing = vec![
        FileInfo { name: b"a_MO.rnx".to_vec(), is_file: true, modified: Some(7), len: 3 },
        FileInfo { name: b"notes.txt".to_vec(), is_file: true, modified: Some(8), len: 4 },
        FileInfo { name: b"b_MN.rnx".to_vec(), is_file: false, modified: Some(9), len: 5 },
        FileInfo { name: b"c.24n".to_vec(), is_file: true, modified: None, len: 6 },
    ];
    let snaps = snapshot_output_products(&listing);
    let seen: Vec<(Vec<u8>, Option<u128>, u64)> =
        snaps.iter().map(|s| (s.path.clone(), s.modified, s.len)).collect();
    assert_eq!(seen, vec![(b"a_MO.rnx".to_vec(), Some(7), 3), (b"c.24n".to_vec(), None, 6)]);
}

#[test]
fn changed_products_are_new_or_different() {
    let before = vec![
        snap("same.rnx", Some(1), 10),
        snap("grown.rnx", Some(1), 10),
        snap("touched.rnx", Some(1), 10),
        snap("untimed.rnx", None, 10),
        snap("gone.rnx", Some(1), 10),
    ];
    let after = vec![
        snap("touched.rnx", Some(2), 10),
        snap("same.rnx", Some(1), 10),
        snap("new.rnx", Some(5), 1),
        snap("grown.rnx", Some(1), 11),
        snap("untimed.rnx", None, 10),
        snap("dated.rnx", None, 1),
    ];
    assert_eq!(
        collect_changed_output_products(&before, &after),
        names(&["dated.rnx", "grown.rnx", "new.rnx", "touched.rnx"])
    );
    assert_eq!(collect_changed_output_products(&before, &[]).len(), 0);
    assert_eq!(collect_changed_output_products(&[], &before).len(), 5);
}

#[test]
fn later_record_of_a_path_counts() {
    let before = vec![snap("a.rnx", Some(1), 10), snap("a.rnx", Some(2), 20)];
    assert_eq!(
        collect_changed_output_products(&before, &[snap("a.rnx", Some(2), 20)]).len(),
        0
    );
    assert_eq!(
        collect_changed_output_products(&before, &[snap("a.rnx", Some(1), 10)]),
        names(&["a.rnx"])
    );
}

#[test]
fn written_file_is_a_regular_file_that_holds_something() {
    assert!(file_exists_and_nonempty(&Some(file("a.rnx"))));
    assert!(!file_exists_and_nonempty(&Some(dir("a.rnx"))));
    assert!(!file_exists_and_nonempty(&Some(FileInfo {
        name: b"a.rnx".to_vec(),
        is_file: true,
        modified: Some(1),
        len: 0
    })));
    assert!(!file_exists_and_nonempty(&None));
}

#[test]
fn scratch_name_is_the_stem_without_slashes() {
    assert_eq!(sanitize_stem_for_temp(b"20240101_090000.ubx"), b"20240101_090000".to_vec());
    assert_eq!(sanitize_stem_for_temp(b"a.b.c"), b"a.b".to_vec());
    assert_eq!(sanitize_stem_for_temp(b"noext"), b"noext".to_vec());
    assert_eq!(sanitize_stem_for_temp(b".hidden"), b".hidden".to_vec());
    assert_eq!(sanitize_stem_for_temp(b"x/y.ubx"), b"x_y".to_vec());
    assert_eq!(sanitize_stem_for_temp(b"trailing."), b"trailing".to_vec());
    assert_eq!(sanitize_stem_for_temp(b""), Vec::<u8>::new());
}
