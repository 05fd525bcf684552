use cutter::config::ConfigError;
use cutter::lambda::{lambda_config, LambdaEvent, LambdaOutput, SUCCESS_MESSAGE};

#[test]
fn an_event_configures_a_fetching_run() {
    let event = LambdaEvent { bucket: "photos".to_owned(), prefix: "gallery".to_owned() };
    let config = lambda_config(&event).unwrap();
    assert!(!config.clean);
    assert!(config.fetch_remote);
    assert!(!config.overwrite);
    assert!(config.verbose);
    assert_eq!(config.files_path, "/tmp/photos/gallery");
    assert_eq!(config.tmp_dir, "/tmp/photos");
    assert_eq!(config.s3_bucket_name, "photos");
    assert_eq!(config.s3_prefix, "gallery");
    assert_eq!(config.s3_region, "eu-central-1");
    assert_eq!(config.crop_sizes, vec![[200, 200], [400, 400], [800, 800], [1920, 1080]]);
}

#[test]
fn an_empty_prefix_falls_back_to_the_bucket() {
    let event = LambdaEvent { bucket: "photos".to_owned(), prefix: String::new() };
    let config = lambda_config(&event).unwrap();
    assert_eq!(config.s3_prefix, "photos");
    assert_eq!(config.files_path, "/tmp/photos/");
    assert_eq!(config.tmp_dir, "/tmp/photos");
}

#[test]
fn an_event_without_a_bucket_is_refused() {
    let event = LambdaEvent { bucket: String::new(), prefix: "gallery".to_owned() };
    assert!(matches!(lambda_config(&event), Err(ConfigError::MissingBucket)));
}

#[test]
fn success_is_reported_in_one_word() {
    assert_eq!(LambdaOutput::success().message, "Success!");
    assert_eq!(SUCCESS_MESSAGE, "Success!");
}
