use cutter::config::{
    config_from_args, default_crop_sizes, parse_crop_size, parse_crop_sizes,
    process_arg_with_default, process_two_args, sizes_are_positive, CliArgs, ConfigError,
    DEFAULT_REGION, DEFAULT_TMP_DIR,
};

fn no_args() -> CliArgs {
    CliArgs {
        path: None,
        s3_bucket: None,
        s3_prefix: None,
        fetch_remote: false,
        overwrite: false,
        verbose: false,
        sizes: None,
    }
}

fn texts_of(items: &[&str]) -> Vec<String> {
    items.iter().map(|s| s.to_string()).collect()
}

#[test]
fn sizes_read_as_width_and_height() {
    assert!(matches!(parse_crop_size("200x200"), Ok([200, 200])));
    assert!(matches!(parse_crop_size("1920x1080"), Ok([1920, 1080])));
    assert!(matches!(parse_crop_size("1x1"), Ok([1, 1])));
    assert!(matches!(parse_crop_size("+3x007"), Ok([3, 7])));
    assert!(matches!(parse_crop_size("4294967295x1"), Ok([4294967295, 1])));
}

#[test]
fn malformed_sizes_are_refused_with_their_text() {
    let bad = [
        "", "x", "200", "200x", "x200", "200x200x200", "200xx200", "axb", "200 x 200", "-1x5",
        "200X200", "4294967296x1", "1x4294967296", "200x200 ", "2.5x3",
    ];
    for text in bad {
        match parse_crop_size(text) {
            Err(ConfigError::InvalidSize(given)) => assert_eq!(given, text),
            other => panic!("{:?} gave {:?}", text, other),
        }
    }
}

#[test]
fn sizes_of_zero_are_refused() {
    for text in ["0x0", "0x5", "5x0", "00x1", "+0x1"] {
        match parse_crop_size(text) {
            Err(ConfigError::InvalidSize(given)) => assert_eq!(given, text),
            other => panic!("{:?} gave {:?}", text, other),
        }
    }
}

#[test]
fn a_list_of_sizes_stops_at_the_first_bad_one() {
    let good = parse_crop_sizes(&texts_of(&["200x200", "1x2", "30x40"])).unwrap();
    assert_eq!(good, vec![[200, 200], [1, 2], [30, 40]]);
    match parse_crop_sizes(&texts_of(&["200x200", "bad", "worse", "1x1"])) {
        Err(ConfigError::InvalidSize(given)) => assert_eq!(given, "bad"),
        other => panic!("gave {:?}", other),
    }
    assert_eq!(parse_crop_sizes(&Vec::new()).unwrap(), Vec::<[u32; 2]>::new());
}

#[test]
fn default_sizes_are_three_thumbnails_and_a_preview() {
    assert_eq!(default_crop_sizes(), vec![[200, 200], [400, 400], [800, 800], [1920, 1080]]);
    assert!(sizes_are_positive(&default_crop_sizes()));
}

#[test]
fn positive_sizes_are_told_from_others() {
    assert!(sizes_are_positive(&Vec::new()));
    assert!(sizes_are_positive(&vec![[1, 1], [2, 3]]));
    assert!(!sizes_are_positive(&vec![[1, 1], [0, 3]]));
    assert!(!sizes_are_positive(&vec![[1, 0]]));
}

#[test]
fn an_argument_falls_back_to_its_default() {
    assert_eq!(process_arg_with_default(None, "/tmp/cutter"), "/tmp/cutter");
    assert_eq!(process_arg_with_default(Some("here"), "/tmp/cutter"), "here");
    assert_eq!(process_arg_with_default(Some(""), "x"), "");
    assert_eq!(process_arg_with_default(None, ""), "");
}

#[test]
fn no_arguments_give_the_default_configuration() {
    let config = config_from_args(&no_args()).unwrap();
    assert!(config.clean);
    assert!(!config.fetch_remote);
    assert!(!config.overwrite);
    assert!(!config.verbose);
    assert_eq!(config.files_path, "/tmp/cutter");
    assert_eq!(config.tmp_dir, "/tmp/cutter");
    assert_eq!(config.s3_bucket_name, "");
    assert_eq!(config.s3_prefix, "");
    assert_eq!(config.s3_region, "eu-central-1");
    assert_eq!(config.crop_sizes, vec![[200, 200], [400, 400], [800, 800], [1920, 1080]]);
    assert_eq!(DEFAULT_REGION, "eu-central-1");
    assert_eq!(DEFAULT_TMP_DIR, "/tmp/cutter");
}

#[test]
fn a_local_run_keeps_its_path() {
    let mut args = no_args();
    args.path = Some("/photos/2020".to_owned());
    args.s3_bucket = Some("bucket".to_owned());
    args.s3_prefix = Some("gallery/summer".to_owned());
    args.overwrite = true;
    args.verbose = true;
    args.sizes = Some(texts_of(&["100x50"]));
    let config = config_from_args(&args).unwrap();
    assert_eq!(config.files_path, "/photos/2020");
    assert_eq!(config.s3_bucket_name, "bucket");
    assert_eq!(config.s3_prefix, "gallery/summer");
    assert!(config.overwrite);
    assert!(config.verbose);
    assert!(config.clean);
    assert_eq!(config.crop_sizes, vec![[100, 50]]);
    assert_eq!(config.tmp_dir, "/tmp/cutter");
}

#[test]
fn a_fetching_run_works_below_the_first_segment_of_the_prefix() {
    let mut args = no_args();
    args.fetch_remote = true;
    args.s3_bucket = Some("bucket".to_owned());
    args.s3_prefix = Some("gallery/summer/2020".to_owned());
    assert_eq!(config_from_args(&args).unwrap().files_path, "/tmp/cutter/gallery");
    args.s3_prefix = Some("gallery".to_owned());
    assert_eq!(config_from_args(&args).unwrap().files_path, "/tmp/cutter/gallery");
    args.s3_prefix = Some("/gallery".to_owned());
    assert_eq!(config_from_args(&args).unwrap().files_path, "/tmp/cutter/");
    args.s3_prefix = None;
    let config = config_from_args(&args).unwrap();
    assert_eq!(config.files_path, "/tmp/cutter/");
    assert_eq!(config.s3_prefix, "");
    assert!(config.fetch_remote);
}

#[test]
fn the_first_bad_size_refuses_the_arguments() {
    let mut args = no_args();
    args.sizes = Some(texts_of(&["200x200", "200", "x"]));
    match config_from_args(&args) {
        Err(ConfigError::InvalidSize(given)) => assert_eq!(given, "200"),
        other => panic!("gave {:?}", other),
    }
}

#[test]
fn arguments_without_any_source_are_refused() {
    let mut args = no_args();
    args.path = Some(String::new());
    args.fetch_remote = true;
    assert!(matches!(config_from_args(&args), Err(ConfigError::MissingArguments)));
    args.s3_bucket = Some(String::new());
    assert!(matches!(config_from_args(&args), Err(ConfigError::MissingArguments)));
    args.s3_bucket = Some("bucket".to_owned());
    assert!(config_from_args(&args).is_ok());
    args.s3_bucket = None;
    args.fetch_remote = false;
    assert!(config_from_args(&args).is_ok());
}

#[test]
fn a_bad_size_is_reported_before_missing_arguments() {
    let mut args = no_args();
    args.path = Some(String::new());
    args.fetch_remote = true;
    args.sizes = Some(texts_of(&["nope"]));
    assert!(matches!(config_from_args(&args), Err(ConfigError::InvalidSize(_))));
}

#[test]
fn positional_path_names_a_local_directory() {
    let config = process_two_args(texts_of(&["cutter", "path", "/photos"])).unwrap();
    assert_eq!(config.files_path, "/photos");
    assert_eq!(config.s3_bucket_name, "");
    assert_eq!(config.s3_prefix, "");
    assert_eq!(config.s3_region, "eu-central-1");
    assert!(config.clean);
    assert!(!config.overwrite);
    assert!(!config.fetch_remote);
    assert!(!config.verbose);
    assert_eq!(config.tmp_dir, "/tmp/cutter");
    assert_eq!(config.crop_sizes, default_crop_sizes());
    let extra = process_two_args(texts_of(&["cutter", "path", "/photos", "ignored"])).unwrap();
    assert_eq!(extra.files_path, "/photos");
    assert_eq!(extra.s3_prefix, "");
}

#[test]
fn positional_s3_names_a_bucket_and_maybe_a_prefix() {
    let config = process_two_args(texts_of(&["cutter", "s3", "bucket"])).unwrap();
    assert_eq!(config.files_path, "bucket");
    assert_eq!(config.s3_bucket_name, "bucket");
    assert_eq!(config.s3_prefix, "");
    assert!(config.fetch_remote);
    let config = process_two_args(texts_of(&["cutter", "s3", "bucket", "gallery"])).unwrap();
    assert_eq!(config.files_path, "gallery");
    assert_eq!(config.s3_bucket_name, "bucket");
    assert_eq!(config.s3_prefix, "gallery");
    let config = process_two_args(texts_of(&["cutter", "s3", "bucket", "gallery", "more"])).unwrap();
    assert_eq!(config.files_path, "bucket");
    assert_eq!(config.s3_prefix, "");
}

#[test]
fn positional_arguments_can_be_refused() {
    assert!(matches!(process_two_args(texts_of(&[])), Err(ConfigError::MissingArguments)));
    assert!(matches!(process_two_args(texts_of(&["cutter"])), Err(ConfigError::MissingArguments)));
    assert!(matches!(
        process_two_args(texts_of(&["cutter", "path"])),
        Err(ConfigError::MissingArguments)
    ));
    match process_two_args(texts_of(&["cutter", "ftp", "host"])) {
        Err(ConfigError::UnknownOperation(given)) => assert_eq!(given, "ftp"),
        other => panic!("gave {:?}", other),
    }
}
