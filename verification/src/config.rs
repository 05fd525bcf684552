//! The run configuration and the rules that build it from arguments.

use vstd::prelude::*;
use vstd::string::*;
use crate::text::{
    chars_of, first_index, first_index_in, lemma_first_index, opt_view, parse_number, parse_u32,
    range_has_char, same_text, texts,
};

verus! {

/// The region that remote buckets are addressed in.
pub const DEFAULT_REGION: &'static str = "eu-central-1";

/// The working directory of a run started from the command line.
pub const DEFAULT_TMP_DIR: &'static str = "/tmp/cutter";

/// Why a configuration was refused.
#[derive(Debug)]
pub enum ConfigError {
    /// A size is not `WIDTHxHEIGHT` with two positive numbers; holds the text given.
    InvalidSize(String),
    /// Neither a local path nor a bucket to fetch from is named.
    MissingArguments,
    /// An event names no bucket.
    MissingBucket,
    /// The first positional argument is neither `path` nor `s3`; holds it.
    UnknownOperation(String),
}

impl ConfigError {
    /// This error refuses the size text `given`.
    pub open spec fn is_invalid_size(self, given: Seq<char>) -> bool {
        self matches ConfigError::InvalidSize(t) && t@ == given
    }

    /// This error refuses the operation `given`.
    pub open spec fn is_unknown_operation(self, given: Seq<char>) -> bool {
        self matches ConfigError::UnknownOperation(t) && t@ == given
    }
}

/// The size that `s` names: two positive numbers around the only `x`.
pub open spec fn size_of_text(s: Seq<char>) -> Option<(u32, u32)> {
    let cut = first_index(s, 'x');
    if cut < s.len() && !s.skip(cut + 1).contains('x') {
        match (parse_u32(s.take(cut)), parse_u32(s.skip(cut + 1))) {
            (Some(w), Some(h)) => if w > 0 && h > 0 {
                Some((w, h))
            } else {
                None
            },
            _ => None,
        }
    } else {
        None
    }
}

/// Reads one size argument, `WIDTHxHEIGHT`.
pub fn parse_crop_size(size: &str) -> (parsed: Result<[u32; 2], ConfigError>)
    ensures
        parsed matches Ok(pair) ==> size_of_text(size@) == Some((pair[0], pair[1])),
        parsed matches Err(e) ==> size_of_text(size@) is None && e.is_invalid_size(size@),
{
    let chars = chars_of(size);
    let n = chars.len();
    let cut = first_index_in(&chars, 'x');
    proof {
        lemma_first_index(chars@, 'x');
    }
    if cut == n {
        return Err(ConfigError::InvalidSize(size.to_owned()));
    }
    assert(chars@.skip(cut + 1) =~= chars@.subrange(cut + 1, n as int));
    assert(chars@.take(cut as int) =~= chars@.subrange(0, cut as int));
    if range_has_char(&chars, cut + 1, n, 'x') {
        return Err(ConfigError::InvalidSize(size.to_owned()));
    }
    let width = parse_number(&chars, 0, cut);
    let height = parse_number(&chars, cut + 1, n);
    match (width, height) {
        (Some(w), Some(h)) => {
            if w > 0 && h > 0 {
                Ok([w, h])
            } else {
                Err(ConfigError::InvalidSize(size.to_owned()))
            }
        },
        _ => Err(ConfigError::InvalidSize(size.to_owned())),
    }
}

/// The sizes cut where none is asked for: three thumbnails and a preview.
pub open spec fn default_sizes() -> Seq<(u32, u32)> {
    seq![(200u32, 200u32), (400u32, 400u32), (800u32, 800u32), (1920u32, 1080u32)]
}

/// The sizes of `sizes` as pairs of width and height.
pub open spec fn size_pairs(sizes: Seq<[u32; 2]>) -> Seq<(u32, u32)> {
    Seq::new(sizes.len(), |i: int| (sizes[i][0], sizes[i][1]))
}

/// Every size of `sizes` has a positive width and a positive height.
pub open spec fn all_positive(sizes: Seq<(u32, u32)>) -> bool {
    forall|i: int| 0 <= i < sizes.len() ==> (#[trigger] sizes[i]).0 > 0 && sizes[i].1 > 0
}

/// Whether every size of `sizes` has a positive width and a positive height.
pub fn sizes_are_positive(sizes: &Vec<[u32; 2]>) -> (positive: bool)
    ensures
        positive == all_positive(size_pairs(sizes@)),
{
    let mut i: usize = 0;
    while i < sizes.len()
        invariant
            i <= sizes.len(),
            forall|k: int|
                0 <= k < i ==> (#[trigger] size_pairs(sizes@)[k]).0 > 0 && size_pairs(sizes@)[k].1
                    > 0,
        decreases sizes.len() - i,
    {
        if sizes[i][0] == 0 || sizes[i][1] == 0 {
            assert(size_pairs(sizes@)[i as int] == (sizes[i as int][0], sizes[i as int][1]));
            return false;
        }
        assert(size_pairs(sizes@)[i as int] == (sizes[i as int][0], sizes[i as int][1]));
        i += 1;
    }
    true
}

/// The sizes cut where none is asked for.
pub fn default_crop_sizes() -> (sizes: Vec<[u32; 2]>)
    ensures
        size_pairs(sizes@) == default_sizes(),
        all_positive(size_pairs(sizes@)),
{
    let mut sizes: Vec<[u32; 2]> = Vec::new();
    sizes.push([200, 200]);
    sizes.push([400, 400]);
    sizes.push([800, 800]);
    sizes.push([1920, 1080]);
    assert(size_pairs(sizes@) =~= default_sizes());
    sizes
}

/// Everything one run needs to know.
#[derive(Debug)]
pub struct Config {
    pub clean: bool,
    pub fetch_remote: bool,
    pub files_path: String,
    pub overwrite: bool,
    pub s3_bucket_name: String,
    pub s3_region: String,
    pub s3_prefix: String,
    pub crop_sizes: Vec<[u32; 2]>,
    pub tmp_dir: String,
    pub verbose: bool,
}

/// A configuration as plain values.
pub struct ConfigView {
    pub clean: bool,
    pub fetch_remote: bool,
    pub files_path: Seq<char>,
    pub overwrite: bool,
    pub s3_bucket_name: Seq<char>,
    pub s3_region: Seq<char>,
    pub s3_prefix: Seq<char>,
    pub crop_sizes: Seq<(u32, u32)>,
    pub tmp_dir: Seq<char>,
    pub verbose: bool,
}

impl View for Config {
    type V = ConfigView;

    open spec fn view(&self) -> ConfigView {
        ConfigView {
            clean: self.clean,
            fetch_remote: self.fetch_remote,
            files_path: self.files_path@,
            overwrite: self.overwrite,
            s3_bucket_name: self.s3_bucket_name@,
            s3_region: self.s3_region@,
            s3_prefix: self.s3_prefix@,
            crop_sizes: size_pairs(self.crop_sizes@),
            tmp_dir: self.tmp_dir@,
            verbose: self.verbose,
        }
    }
}

impl ConfigView {
    /// Every size to cut has a positive width and a positive height.
    pub open spec fn sizes_positive(self) -> bool {
        all_positive(self.crop_sizes)
    }
}

/// What the command line gave, argument by argument.
#[derive(Debug)]
pub struct CliArgs {
    /// Local directory of the images to cut.
    pub path: Option<String>,
    /// Bucket to publish to, and to fetch from where `fetch_remote` is set.
    pub s3_bucket: Option<String>,
    /// Start of the keys to fetch.
    pub s3_prefix: Option<String>,
    pub fetch_remote: bool,
    pub overwrite: bool,
    pub verbose: bool,
    /// One `WIDTHxHEIGHT` per size; `None` asks for the default sizes.
    pub sizes: Option<Vec<String>>,
}

/// The sizes that the texts of `given` name, one for one.
pub open spec fn sizes_of_texts(given: Seq<String>) -> Seq<(u32, u32)> {
    Seq::new(given.len(), |i: int| size_of_text(given[i]@).unwrap())
}

/// The text of `arg`, or `default` where there is none.
pub open spec fn text_or(arg: Option<Seq<char>>, default: Seq<char>) -> Seq<char> {
    match arg {
        Some(s) => s,
        None => default,
    }
}

/// The part of `s` before its first `/`; all of `s` where it has none.
pub open spec fn first_segment(s: Seq<char>) -> Seq<char> {
    s.take(first_index(s, '/'))
}

impl CliArgs {
    pub open spec fn local_path(self) -> Seq<char> {
        text_or(opt_view(self.path), DEFAULT_TMP_DIR@)
    }

    pub open spec fn bucket(self) -> Seq<char> {
        text_or(opt_view(self.s3_bucket), Seq::empty())
    }

    pub open spec fn prefix(self) -> Seq<char> {
        text_or(opt_view(self.s3_prefix), Seq::empty())
    }

    /// Where the images to cut lie: the local path, or below it the directory
    /// named by the first segment of the prefix once they are fetched.
    pub open spec fn files_path(self) -> Seq<char> {
        if self.fetch_remote {
            self.local_path() + seq!['/'] + first_segment(self.prefix())
        } else {
            self.local_path()
        }
    }

    /// Nothing names where the images come from.
    pub open spec fn missing_arguments(self) -> bool {
        self.local_path().len() == 0 && self.fetch_remote && self.bucket().len() == 0
    }

    /// The offset of the first size that does not read as one, if any.
    pub open spec fn is_first_invalid(self, k: int) -> bool {
        &&& self.sizes matches Some(given)
        &&& 0 <= k < given.len()
        &&& size_of_text(given[k]@) is None
        &&& forall|j: int| 0 <= j < k ==> size_of_text(#[trigger] given[j]@) is Some
    }

    /// Every size given reads as one.
    pub open spec fn sizes_valid(self) -> bool {
        self.sizes matches Some(given) ==> forall|j: int|
            0 <= j < given.len() ==> size_of_text(#[trigger] given[j]@) is Some
    }

    /// The sizes asked for, or the default ones.
    pub open spec fn crop_sizes(self) -> Seq<(u32, u32)> {
        match self.sizes {
            Some(given) => sizes_of_texts(given@),
            None => default_sizes(),
        }
    }

    /// The configuration that these arguments ask for.
    pub open spec fn config(self) -> ConfigView {
        ConfigView {
            clean: true,
            fetch_remote: self.fetch_remote,
            files_path: self.files_path(),
            overwrite: self.overwrite,
            s3_bucket_name: self.bucket(),
            s3_region: DEFAULT_REGION@,
            s3_prefix: self.prefix(),
            crop_sizes: self.crop_sizes(),
            tmp_dir: DEFAULT_TMP_DIR@,
            verbose: self.verbose,
        }
    }
}

/// The text of an argument, or `default` where it was not given.
pub fn process_arg_with_default(arg: Option<&str>, default: &str) -> (text: String)
    ensures
        text@ == (match arg {
            Some(s) => s@,
            None => default@,
        }),
{
    match arg {
        None => default.to_owned(),
        Some(s) => s.to_owned(),
    }
}

/// The text of an owned argument, or `default` where it was not given.
fn owned_arg_with_default(arg: &Option<String>, default: &str) -> (text: String)
    ensures
        text@ == text_or(opt_view(*arg), default@),
{
    match arg {
        None => process_arg_with_default(None, default),
        Some(s) => process_arg_with_default(Some(s.as_str()), default),
    }
}

/// Reads every size given, in order, and stops at the first that is none.
pub fn parse_crop_sizes(given: &Vec<String>) -> (parsed: Result<Vec<[u32; 2]>, ConfigError>)
    ensures
        parsed matches Ok(sizes) ==> {
            &&& forall|j: int| 0 <= j < given.len() ==> size_of_text(#[trigger] given[j]@) is Some
            &&& size_pairs(sizes@) == sizes_of_texts(given@)
        },
        parsed matches Err(e) ==> exists|k: int|
            {
                &&& 0 <= k < given.len()
                &&& size_of_text(#[trigger] given[k]@) is None
                &&& forall|j: int| 0 <= j < k ==> size_of_text(#[trigger] given[j]@) is Some
                &&& e.is_invalid_size(given[k]@)
            },
{
    let mut sizes: Vec<[u32; 2]> = Vec::new();
    let mut i: usize = 0;
    while i < given.len()
        invariant
            i <= given.len(),
            sizes.len() == i,
            forall|j: int| 0 <= j < i ==> size_of_text(#[trigger] given[j]@) == Some(
                (sizes[j][0], sizes[j][1]),
            ),
        decreases given.len() - i,
    {
        match parse_crop_size(given[i].as_str()) {
            Ok(pair) => {
                sizes.push(pair);
            },
            Err(e) => {
                assert(size_of_text(given[i as int]@) is None);
                return Err(e);
            },
        }
        i += 1;
    }
    assert(size_pairs(sizes@) =~= sizes_of_texts(given@));
    Ok(sizes)
}

/// Builds the configuration of a run from the arguments of the command line.
///
/// The first size that is not `WIDTHxHEIGHT` is refused with its text. Where
/// all sizes read, the arguments are refused if nothing names a source.
pub fn config_from_args(args: &CliArgs) -> (built: Result<Config, ConfigError>)
    ensures
        built is Ok <==> args.sizes_valid() && !args.missing_arguments(),
        built matches Ok(config) ==> config@ == args.config() && config@.sizes_positive(),
        built matches Err(e) ==> {
            ||| (e is MissingArguments && args.sizes_valid() && args.missing_arguments())
            ||| exists|k: int| #[trigger]
                args.is_first_invalid(k) && e.is_invalid_size(args.sizes->0[k]@)
        },
{
    let local_path = owned_arg_with_default(&args.path, DEFAULT_TMP_DIR);
    let s3_bucket = owned_arg_with_default(&args.s3_bucket, "");
    let s3_prefix = owned_arg_with_default(&args.s3_prefix, "");
    proof {
        reveal_strlit("");
        reveal_strlit("/");
        assert(""@ =~= Seq::<char>::empty());
        assert("/"@ =~= seq!['/']);
    }
    let crop_sizes = match &args.sizes {
        Some(given) => {
            match parse_crop_sizes(given) {
                Ok(sizes) => sizes,
                Err(e) => {
                    proof {
                        let k = choose|k: int|
                            {
                                &&& 0 <= k < given.len()
                                &&& size_of_text(#[trigger] given[k]@) is None
                                &&& forall|j: int|
                                    0 <= j < k ==> size_of_text(#[trigger] given[j]@) is Some
                                &&& e.is_invalid_size(given[k]@)
                            };
                        assert(args.is_first_invalid(k));
                    }
                    return Err(e);
                },
            }
        },
        None => default_crop_sizes(),
    };
    assert(size_pairs(crop_sizes@) == args.crop_sizes());
    if local_path.as_str().is_empty() && (args.fetch_remote && s3_bucket.as_str().is_empty()) {
        return Err(ConfigError::MissingArguments);
    }
    let mut files_path = local_path;
    if args.fetch_remote {
        let prefix_chars = chars_of(s3_prefix.as_str());
        let cut = first_index_in(&prefix_chars, '/');
        proof {
            lemma_first_index(prefix_chars@, '/');
            assert(s3_prefix@.subrange(0, cut as int) =~= first_segment(s3_prefix@));
        }
        files_path.append("/");
        files_path.append(s3_prefix.as_str().substring_char(0, cut));
    }
    let config = Config {
        clean: true,
        crop_sizes,
        fetch_remote: args.fetch_remote,
        files_path,
        overwrite: args.overwrite,
        s3_bucket_name: s3_bucket,
        s3_prefix,
        s3_region: DEFAULT_REGION.to_owned(),
        tmp_dir: DEFAULT_TMP_DIR.to_owned(),
        verbose: args.verbose,
    };
    proof {
        let sizes = config@.crop_sizes;
        assert forall|i: int| 0 <= i < sizes.len() implies (#[trigger] sizes[i]).0 > 0
            && sizes[i].1 > 0 by {
            match args.sizes {
                Some(given) => {
                    assert(size_of_text(given[i]@) is Some);
                },
                None => {},
            }
        }
    }
    Ok(config)
}

/// The configuration that the positional arguments `args` ask for, where
/// `args[0]` is the program's name: `path <dir>` cuts the images of a local
/// directory, `s3 <bucket> [<prefix>]` those of a bucket. Without a fourth
/// argument the bucket's name stands for the directory; with one, the prefix
/// does.
pub open spec fn positional_config(args: Seq<Seq<char>>) -> ConfigView {
    let remote = args[1] == "s3"@;
    let with_prefix = remote && args.len() == 4;
    ConfigView {
        clean: true,
        fetch_remote: remote,
        files_path: if with_prefix {
            args[3]
        } else {
            args[2]
        },
        overwrite: false,
        s3_bucket_name: if remote {
            args[2]
        } else {
            Seq::empty()
        },
        s3_region: DEFAULT_REGION@,
        s3_prefix: if with_prefix {
            args[3]
        } else {
            Seq::empty()
        },
        crop_sizes: default_sizes(),
        tmp_dir: DEFAULT_TMP_DIR@,
        verbose: false,
    }
}

/// Builds the configuration of a run from positional arguments: the
/// operation, `path` or `s3`, and its one or two operands.
pub fn process_two_args(args: Vec<String>) -> (built: Result<Config, ConfigError>)
    ensures
        match built {
            Ok(config) => {
                &&& args.len() >= 3
                &&& (args[1]@ == "path"@ || args[1]@ == "s3"@)
                &&& config@ == positional_config(texts(args@))
                &&& config@.sizes_positive()
            },
            Err(e) => if args.len() < 3 {
                e is MissingArguments
            } else {
                args[1]@ != "path"@ && args[1]@ != "s3"@ && e.is_unknown_operation(args[1]@)
            },
        },
{
    if args.len() < 3 {
        return Err(ConfigError::MissingArguments);
    }
    proof {
        reveal_strlit("");
        assert(""@ =~= Seq::<char>::empty());
        assert(texts(args@)[1] == args[1]@);
        assert(texts(args@)[2] == args[2]@);
        if args.len() == 4 {
            assert(texts(args@)[3] == args[3]@);
        }
    }
    let mut files_path = args[2].clone();
    let mut s3_bucket_name = "".to_owned();
    let mut s3_prefix = "".to_owned();
    let remote = same_text(args[1].as_str(), "s3");
    if remote {
        s3_bucket_name = args[2].clone();
        if args.len() == 4 {
            files_path = args[3].clone();
            s3_prefix = args[3].clone();
        }
    } else if !same_text(args[1].as_str(), "path") {
        return Err(ConfigError::UnknownOperation(args[1].clone()));
    }
    Ok(
        Config {
            clean: true,
            crop_sizes: default_crop_sizes(),
            fetch_remote: remote,
            files_path,
            overwrite: false,
            s3_bucket_name,
            s3_prefix,
            s3_region: DEFAULT_REGION.to_owned(),
            tmp_dir: DEFAULT_TMP_DIR.to_owned(),
            verbose: false,
        },
    )
}

} // verus!
