//! A configuration told in words, line by line.

use vstd::prelude::*;
use vstd::string::*;
use crate::config::{Config, ConfigView};
use crate::text::{decimal, push_decimal, push_line, texts};

verus! {

/// The first line of an explanation.
pub const EXPLAIN_HEADER: &'static str = "*************** CONFIGURATION ***************";

/// The last line of an explanation.
pub const EXPLAIN_FOOTER: &'static str = "*************** END CONFIGURATION ***************";

/// How a flag reads.
pub open spec fn flag_text(flag: bool) -> Seq<char> {
    if flag {
        "true"@
    } else {
        "false"@
    }
}

/// The line of one size: a tab, then the pair in square brackets.
pub open spec fn size_line(size: (u32, u32)) -> Seq<char> {
    "\t["@ + decimal(size.0 as nat) + ", "@ + decimal(size.1 as nat) + "]"@
}

/// The lines on publishing, where a bucket is named.
pub open spec fn publish_lines(c: ConfigView) -> Seq<Seq<char>> {
    if c.s3_bucket_name.len() > 0 {
        seq![
            "Will publish files to S3 bucket '"@ + c.s3_bucket_name + "' after completion"@,
            "Will overwrite files on remote: "@ + flag_text(c.overwrite),
        ]
    } else {
        Seq::empty()
    }
}

/// The line on where the sources come from.
pub open spec fn source_line(c: ConfigView) -> Seq<char> {
    if c.fetch_remote {
        "Fetching files from remote: "@ + c.s3_bucket_name + "/"@ + c.s3_prefix
    } else {
        "Path to source files locally on this host: "@ + c.files_path
    }
}

/// The line on cleaning, where that is asked for.
pub open spec fn clean_lines(c: ConfigView) -> Seq<Seq<char>> {
    if c.clean {
        seq!["Will clean working directory before starting"@]
    } else {
        Seq::empty()
    }
}

/// The lines that come before the sizes.
pub open spec fn explanation_head(c: ConfigView) -> Seq<Seq<char>> {
    seq![EXPLAIN_HEADER@] + publish_lines(c) + seq![
        source_line(c),
        "Working/temporary directory: "@ + c.tmp_dir,
    ] + clean_lines(c) + seq![
        "Will crop to the following "@ + decimal(c.crop_sizes.len()) + " size(s):"@,
    ]
}

/// The whole explanation: the head, one line for each size, the footer.
pub open spec fn explanation(c: ConfigView) -> Seq<Seq<char>> {
    explanation_head(c) + Seq::new(c.crop_sizes.len(), |i: int| size_line(c.crop_sizes[i])) + seq![
        EXPLAIN_FOOTER@,
    ]
}

/// `first`, then `second`.
fn joined(first: &str, second: &str) -> (line: String)
    ensures
        line@ == first@ + second@,
{
    let mut line = first.to_owned();
    line.append(second);
    line
}

/// The line of one size.
fn size_line_of(width: u32, height: u32) -> (line: String)
    ensures
        line@ == size_line((width, height)),
{
    let mut line = "\t[".to_owned();
    push_decimal(&mut line, width as u64);
    line.append(", ");
    push_decimal(&mut line, height as u64);
    line.append("]");
    line
}

/// Tells `config` in words, one line for each thing it asks for.
pub fn explain_config(config: &Config) -> (lines: Vec<String>)
    ensures
        texts(lines@) == explanation(config@),
{
    let ghost c = config@;
    let mut lines: Vec<String> = Vec::new();
    assert(texts(lines@) =~= Seq::<Seq<char>>::empty());
    push_line(&mut lines, EXPLAIN_HEADER.to_owned());
    if !config.s3_bucket_name.as_str().is_empty() {
        let mut line = joined("Will publish files to S3 bucket '", config.s3_bucket_name.as_str());
        line.append("' after completion");
        push_line(&mut lines, line);
        let flag = if config.overwrite {
            "true"
        } else {
            "false"
        };
        push_line(&mut lines, joined("Will overwrite files on remote: ", flag));
    }
    assert(texts(lines@) =~= seq![EXPLAIN_HEADER@] + publish_lines(c));
    if config.fetch_remote {
        let mut line = joined("Fetching files from remote: ", config.s3_bucket_name.as_str());
        line.append("/");
        line.append(config.s3_prefix.as_str());
        push_line(&mut lines, line);
    } else {
        push_line(
            &mut lines,
            joined("Path to source files locally on this host: ", config.files_path.as_str()),
        );
    }
    push_line(&mut lines, joined("Working/temporary directory: ", config.tmp_dir.as_str()));
    if config.clean {
        push_line(&mut lines, "Will clean working directory before starting".to_owned());
    }
    let mut count = "Will crop to the following ".to_owned();
    push_decimal(&mut count, config.crop_sizes.len() as u64);
    count.append(" size(s):");
    push_line(&mut lines, count);
    assert(texts(lines@) =~= explanation_head(c));
    let mut i: usize = 0;
    while i < config.crop_sizes.len()
        invariant
            i <= config.crop_sizes.len(),
            c == config@,
            texts(lines@) == explanation_head(c) + Seq::new(
                i as nat,
                |k: int| size_line(c.crop_sizes[k]),
            ),
        decreases config.crop_sizes.len() - i,
    {
        let ghost before = texts(lines@);
        let size = &config.crop_sizes[i];
        push_line(&mut lines, size_line_of(size[0], size[1]));
        assert(c.crop_sizes[i as int] == (size[0], size[1]));
        assert(texts(lines@) =~= explanation_head(c) + Seq::new(
            (i + 1) as nat,
            |k: int| size_line(c.crop_sizes[k]),
        ));
        i += 1;
    }
    push_line(&mut lines, EXPLAIN_FOOTER.to_owned());
    assert(texts(lines@) =~= explanation(c));
    lines
}

} // verus!
