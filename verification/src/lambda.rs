//! Runs started by an event that names a bucket and a prefix.

use vstd::prelude::*;
use vstd::string::*;
use crate::config::{
    default_crop_sizes, default_sizes, Config, ConfigError, ConfigView, DEFAULT_REGION,
};

verus! {

/// What reports a run that went through.
pub const SUCCESS_MESSAGE: &'static str = "Success!";

/// The event that starts a run: the bucket to work on and the prefix of the
/// keys to fetch.
#[derive(Debug)]
pub struct LambdaEvent {
    pub bucket: String,
    pub prefix: String,
}

/// What is handed back when the run is over.
#[derive(Debug)]
pub struct LambdaOutput {
    pub message: String,
}

/// The configuration of the run that an event for `bucket` and `prefix`
/// starts: fetch from the bucket, work below `/tmp/<bucket>`, cut the default
/// sizes, overwrite and clean nothing, report every step. Where the prefix is
/// empty the bucket's name stands for it.
pub open spec fn event_config(bucket: Seq<char>, prefix: Seq<char>) -> ConfigView {
    ConfigView {
        clean: false,
        fetch_remote: true,
        files_path: "/tmp/"@ + bucket + "/"@ + prefix,
        overwrite: false,
        s3_bucket_name: bucket,
        s3_region: DEFAULT_REGION@,
        s3_prefix: if prefix.len() > 0 {
            prefix
        } else {
            bucket
        },
        crop_sizes: default_sizes(),
        tmp_dir: "/tmp/"@ + bucket,
        verbose: true,
    }
}

/// The configuration of the run that `event` starts. An event without a
/// bucket starts none.
pub fn lambda_config(event: &LambdaEvent) -> (built: Result<Config, ConfigError>)
    ensures
        match built {
            Ok(config) => event.bucket@.len() > 0 && config@ == event_config(
                event.bucket@,
                event.prefix@,
            ) && config@.sizes_positive(),
            Err(e) => event.bucket@.len() == 0 && e is MissingBucket,
        },
{
    if event.bucket.as_str().is_empty() {
        return Err(ConfigError::MissingBucket);
    }
    let s3_prefix = if event.prefix.as_str().is_empty() {
        event.bucket.clone()
    } else {
        event.prefix.clone()
    };
    let mut tmp_dir = "/tmp/".to_owned();
    tmp_dir.append(event.bucket.as_str());
    let mut files_path = tmp_dir.clone();
    files_path.append("/");
    files_path.append(event.prefix.as_str());
    Ok(
        Config {
            clean: false,
            crop_sizes: default_crop_sizes(),
            fetch_remote: true,
            files_path,
            overwrite: false,
            s3_bucket_name: event.bucket.clone(),
            s3_prefix,
            s3_region: DEFAULT_REGION.to_owned(),
            tmp_dir,
            verbose: true,
        },
    )
}

impl LambdaOutput {
    /// The output of a run that went through.
    pub fn success() -> (output: LambdaOutput)
        ensures
            output.message@ == SUCCESS_MESSAGE@,
    {
        LambdaOutput { message: SUCCESS_MESSAGE.to_owned() }
    }
}

} // verus!
