//! Names of derived images, and the rule that tells them from sources.
//!
//! A derived image is named after the stem of its source and the size it was
//! cut to: `<stem>_<width>x<height>px_<width>w.<ext>`. Anything with an
//! underscore in its path counts as derived. That rule is coarse on purpose: a
//! source whose own name holds an underscore cannot be told from a derived
//! image, and is left out of processing.

use vstd::prelude::*;
use vstd::string::*;
use crate::text::{
    after_last, after_last_in, all_digits, chars_of, decimal, is_digit, lemma_after_last,
    lemma_decimal_injective, lemma_decimal_shape, opt_view, push_decimal, range_has_char,
};

verus! {

/// The name of the image cut from the source with stem `stem` to `w` by `h`.
pub open spec fn thumb_name(stem: Seq<char>, w: u32, h: u32, suffix: Seq<char>) -> Seq<char> {
    stem + seq!['_'] + decimal(w as nat) + seq!['x'] + decimal(h as nat) + seq!['p', 'x', '_']
        + decimal(w as nat) + seq!['w', '.'] + suffix
}

/// The path of that image below `output_dir`.
pub open spec fn derived_path(
    stem: Seq<char>,
    w: u32,
    h: u32,
    output_dir: Seq<char>,
    suffix: Seq<char>,
) -> Seq<char> {
    output_dir + seq!['/'] + thumb_name(stem, w, h, suffix)
}

/// The rule that tells a derived image from a source: an underscore anywhere
/// in the path. A source file that happens to contain an underscore in its own
/// name is indistinguishable from a derivative and will be excluded from
/// re-processing.
pub open spec fn is_derivative_path(path: Seq<char>) -> bool {
    path.contains('_')
}

/// The name of the image cut from `path` (a source's stem) to `w` by `h`.
pub fn generate_thumb_path(path: &str, w: u32, h: u32, path_suffix: &str) -> (name: String)
    ensures
        name@ == thumb_name(path@, w, h, path_suffix@),
{
    proof {
        reveal_strlit("_");
        reveal_strlit("x");
        reveal_strlit("px_");
        reveal_strlit("w.");
        assert("_"@ =~= seq!['_']);
        assert("x"@ =~= seq!['x']);
        assert("px_"@ =~= seq!['p', 'x', '_']);
        assert("w."@ =~= seq!['w', '.']);
    }
    let mut name = path.to_owned();
    name.append("_");
    push_decimal(&mut name, w as u64);
    name.append("x");
    push_decimal(&mut name, h as u64);
    name.append("px_");
    push_decimal(&mut name, w as u64);
    name.append("w.");
    name.append(path_suffix);
    name
}

/// The path below `output_dir` of the image cut from the source with stem
/// `source_basename` to `width` by `height`.
pub fn derive_path(
    source_basename: &str,
    width: u32,
    height: u32,
    output_dir: &str,
    extension: &str,
) -> (path: String)
    ensures
        path@ == derived_path(source_basename@, width, height, output_dir@, extension@),
{
    proof {
        reveal_strlit("/");
        assert("/"@ =~= seq!['/']);
    }
    let name = generate_thumb_path(source_basename, width, height, extension);
    let mut path = output_dir.to_owned();
    path.append("/");
    path.append(name.as_str());
    path
}

/// Whether `path` counts as a derived image.
pub fn is_derivative(path: &str) -> (derived: bool)
    ensures
        derived == is_derivative_path(path@),
{
    let chars = chars_of(path);
    assert(chars@.subrange(0, chars@.len() as int) =~= chars@);
    range_has_char(&chars, 0, chars.len(), '_')
}

/// The last component of `path`, as `std::path` reads paths with `/` between
/// components: empty components and `.` are passed over from the end, and
/// there is no name where the last component left is `..` or none is left.
pub open spec fn file_name_of(path: Seq<char>) -> Option<Seq<char>>
    decreases path.len(),
    via file_name_of_decreases
{
    let start = after_last(path, '/');
    let last = path.skip(start);
    if last.len() == 0 || last == seq!['.'] {
        if start == 0 {
            None
        } else {
            file_name_of(path.take(start - 1))
        }
    } else if last == seq!['.', '.'] {
        None
    } else {
        Some(last)
    }
}

#[via_fn]
proof fn file_name_of_decreases(path: Seq<char>) {
    lemma_after_last(path, '/');
}

/// The file name `name` without its extension: the part before the last `.`,
/// or all of `name` where it has no `.` or only one at its start.
pub open spec fn stem_of_name(name: Seq<char>) -> Seq<char> {
    let dot = after_last(name, '.');
    if dot <= 1 {
        name
    } else {
        name.take(dot - 1)
    }
}

/// The stem of the file name of `path`, where it has a file name.
pub open spec fn file_stem_of(path: Seq<char>) -> Option<Seq<char>> {
    match file_name_of(path) {
        Some(name) => Some(stem_of_name(name)),
        None => None,
    }
}

/// The bounds of the file name within `chars`.
fn file_name_bounds(chars: &Vec<char>) -> (bounds: Option<(usize, usize)>)
    ensures
        match bounds {
            Some((from, to)) => from <= to <= chars.len() && file_name_of(chars@) == Some(
                chars@.subrange(from as int, to as int),
            ),
            None => file_name_of(chars@) is None,
        },
{
    let mut end: usize = chars.len();
    assert(chars@.take(end as int) =~= chars@);
    loop
        invariant
            end <= chars.len(),
            file_name_of(chars@) == file_name_of(chars@.take(end as int)),
        decreases end,
    {
        let ghost path = chars@.take(end as int);
        let start = after_last_in(chars, end, '/');
        proof {
            lemma_after_last(path, '/');
            assert(path.skip(start as int) =~= chars@.subrange(start as int, end as int));
        }
        let len: usize = end - start;
        if len == 0 || (len == 1 && chars[start] == '.') {
            assert(path.skip(start as int).len() == 0 || path.skip(start as int) =~= seq!['.']);
            if start == 0 {
                return None;
            }
            assert(path.take(start - 1) =~= chars@.take(start - 1));
            end = start - 1;
        } else if len == 2 && chars[start] == '.' && chars[start + 1] == '.' {
            assert(path.skip(start as int) =~= seq!['.', '.']);
            return None;
        } else {
            proof {
                let last = path.skip(start as int);
                if last == seq!['.'] {
                    assert(last.len() == 1);
                    assert(last[0] == '.');
                }
                if last == seq!['.', '.'] {
                    assert(last.len() == 2);
                    assert(last[0] == '.');
                    assert(last[1] == '.');
                }
            }
            return Some((start, end));
        }
    }
}

/// The last component of `path`, if it names a file or a directory.
pub fn file_name(path: &str) -> (name: Option<String>)
    ensures
        opt_view(name) == file_name_of(path@),
{
    let chars = chars_of(path);
    match file_name_bounds(&chars) {
        Some((from, to)) => Some(path.substring_char(from, to).to_owned()),
        None => None,
    }
}

/// The stem of the file name of `path`, if it has a file name.
pub fn file_stem(path: &str) -> (stem: Option<String>)
    ensures
        opt_view(stem) == file_stem_of(path@),
{
    let chars = chars_of(path);
    match file_name_bounds(&chars) {
        Some((from, to)) => {
            let ghost name = chars@.subrange(from as int, to as int);
            let dot = after_last_in(&chars, to, '.');
            proof {
                lemma_after_last(chars@.take(to as int), '.');
                lemma_after_last(name, '.');
                lemma_after_last_behind(chars@, from as int, to as int, '.');
            }
            if dot <= from || dot - from <= 1 {
                Some(path.substring_char(from, to).to_owned())
            } else {
                assert(name.take(dot - 1 - from) =~= chars@.subrange(from as int, dot - 1));
                Some(path.substring_char(from, dot - 1).to_owned())
            }
        },
        None => None,
    }
}

/// The stem of the file name of `path`: what a derived image is named after.
pub fn get_file_name(path: &str) -> (stem: String)
    requires
        file_stem_of(path@) is Some,
    ensures
        Some(stem@) == file_stem_of(path@),
{
    match file_stem(path) {
        Some(stem) => stem,
        None => String::new(),
    }
}

/// The last `c` of a part of `s` lies where the last `c` of `s` up to the part's
/// end lies, unless that is before the part.
pub proof fn lemma_after_last_behind(s: Seq<char>, from: int, to: int, c: char)
    requires
        0 <= from <= to <= s.len(),
    ensures
        after_last(s.subrange(from, to), c) == if after_last(s.take(to), c) > from {
            after_last(s.take(to), c) - from
        } else {
            0
        },
    decreases to - from,
{
    let part = s.subrange(from, to);
    let head = s.take(to);
    if from == to {
        lemma_after_last(head, c);
    } else {
        assert(part.last() == s[to - 1]);
        assert(head.last() == s[to - 1]);
        if s[to - 1] != c {
            lemma_after_last_behind(s, from, to - 1, c);
            assert(part.drop_last() =~= s.subrange(from, to - 1));
            assert(head.drop_last() =~= s.take(to - 1));
        }
    }
}

/// Where the parts of a derived name lie in it.
proof fn lemma_thumb_name_parts(stem: Seq<char>, w: u32, h: u32, suffix: Seq<char>)
    ensures
        ({
            let name = thumb_name(stem, w, h, suffix);
            let dw = decimal(w as nat);
            let dh = decimal(h as nat);
            let a = stem.len() as int;
            let nw = dw.len() as int;
            let nh = dh.len() as int;
            &&& name.len() == a + nw + nh + nw + 7 + suffix.len()
            &&& nw >= 1
            &&& nh >= 1
            &&& all_digits(dw)
            &&& all_digits(dh)
            &&& forall|i: int| 0 <= i < a ==> name[i] == stem[i]
            &&& name[a] == '_'
            &&& forall|i: int| 0 <= i < nw ==> name[a + 1 + i] == dw[i]
            &&& name[a + 1 + nw] == 'x'
            &&& forall|i: int| 0 <= i < nh ==> name[a + 2 + nw + i] == dh[i]
            &&& name[a + 2 + nw + nh] == 'p'
            &&& name[a + 3 + nw + nh] == 'x'
            &&& name[a + 4 + nw + nh] == '_'
            &&& forall|i: int| 0 <= i < nw ==> name[a + 5 + nw + nh + i] == dw[i]
            &&& name[a + 5 + nw + nh + nw] == 'w'
            &&& name[a + 6 + nw + nh + nw] == '.'
            &&& forall|i: int|
                0 <= i < suffix.len() ==> name[a + 7 + nw + nh + nw + i] == suffix[i]
        }),
{
    lemma_decimal_shape(w as nat);
    lemma_decimal_shape(h as nat);
}

/// Two notations of numbers that end at the same place of one string, each
/// behind a character that is no digit, are the same notation.
proof fn lemma_same_digits(
    name: Seq<char>,
    end: int,
    first: Seq<char>,
    second: Seq<char>,
    mark: char,
)
    requires
        !is_digit(mark),
        all_digits(first),
        all_digits(second),
        first.len() < end <= name.len(),
        second.len() < end,
        forall|i: int| 0 <= i < first.len() ==> name[end - first.len() + i] == first[i],
        forall|i: int| 0 <= i < second.len() ==> name[end - second.len() + i] == second[i],
        name[end - first.len() - 1] == mark,
        name[end - second.len() - 1] == mark,
    ensures
        first == second,
{
    if first.len() < second.len() {
        let i = second.len() - first.len() - 1;
        assert(name[end - second.len() + i] == second[i]);
        assert(is_digit(second[i]));
    } else if second.len() < first.len() {
        let i = first.len() - second.len() - 1;
        assert(name[end - first.len() + i] == first[i]);
        assert(is_digit(first[i]));
    } else {
        assert forall|i: int| 0 <= i < first.len() implies first[i] == second[i] by {
            assert(name[end - first.len() + i] == first[i]);
            assert(name[end - second.len() + i] == second[i]);
        }
        assert(first =~= second);
    }
}

/// A derived name tells its stem and its size: with one extension, two names
/// are the same only where stem, width and height are.
pub proof fn lemma_thumb_name_injective(
    stem1: Seq<char>,
    w1: u32,
    h1: u32,
    stem2: Seq<char>,
    w2: u32,
    h2: u32,
    suffix: Seq<char>,
)
    requires
        thumb_name(stem1, w1, h1, suffix) == thumb_name(stem2, w2, h2, suffix),
    ensures
        stem1 == stem2,
        w1 == w2,
        h1 == h2,
{
    let name = thumb_name(stem1, w1, h1, suffix);
    lemma_thumb_name_parts(stem1, w1, h1, suffix);
    lemma_thumb_name_parts(stem2, w2, h2, suffix);
    let len = name.len() as int;
    let e = suffix.len() as int;
    let dw1 = decimal(w1 as nat);
    let dw2 = decimal(w2 as nat);
    let dh1 = decimal(h1 as nat);
    let dh2 = decimal(h2 as nat);
    let a1 = stem1.len() as int;
    let a2 = stem2.len() as int;
    // The width stands last, before `w.` and the extension, behind an underscore.
    let w_end = len - e - 2;
    assert(dw1 == dw2) by {
        assert forall|i: int| 0 <= i < dw1.len() implies name[w_end - dw1.len() + i] == dw1[i] by {
            assert(name[a1 + 5 + dw1.len() + dh1.len() + i] == dw1[i]);
        }
        assert forall|i: int| 0 <= i < dw2.len() implies name[w_end - dw2.len() + i] == dw2[i] by {
            assert(name[a2 + 5 + dw2.len() + dh2.len() + i] == dw2[i]);
        }
        assert(name[w_end - dw1.len() - 1] == '_');
        assert(name[w_end - dw2.len() - 1] == '_');
        lemma_same_digits(name, w_end, dw1, dw2, '_');
    }
    lemma_decimal_injective(w1 as nat, w2 as nat);
    // The height stands before `px_` and the width, behind an `x`.
    let nw = dw1.len() as int;
    let h_end = w_end - nw - 3;
    assert(dh1 == dh2) by {
        assert forall|i: int| 0 <= i < dh1.len() implies name[h_end - dh1.len() + i] == dh1[i] by {
            assert(name[a1 + 2 + nw + i] == dh1[i]);
        }
        assert forall|i: int| 0 <= i < dh2.len() implies name[h_end - dh2.len() + i] == dh2[i] by {
            assert(name[a2 + 2 + nw + i] == dh2[i]);
        }
        assert(name[h_end - dh1.len() - 1] == 'x');
        assert(name[h_end - dh2.len() - 1] == 'x');
        lemma_same_digits(name, h_end, dh1, dh2, 'x');
    }
    lemma_decimal_injective(h1 as nat, h2 as nat);
    // What is left in front is the stem.
    assert(a1 == a2);
    assert(stem1 =~= stem2);
}

/// A derived path tells what it was derived from: below one directory and with
/// one extension, different stems or sizes give different paths.
pub proof fn lemma_derived_path_injective(
    stem1: Seq<char>,
    w1: u32,
    h1: u32,
    stem2: Seq<char>,
    w2: u32,
    h2: u32,
    output_dir: Seq<char>,
    suffix: Seq<char>,
)
    requires
        (stem1, w1, h1) != (stem2, w2, h2),
    ensures
        derived_path(stem1, w1, h1, output_dir, suffix) != derived_path(
            stem2,
            w2,
            h2,
            output_dir,
            suffix,
        ),
{
    let head = output_dir + seq!['/'];
    let name1 = thumb_name(stem1, w1, h1, suffix);
    let name2 = thumb_name(stem2, w2, h2, suffix);
    let path1 = derived_path(stem1, w1, h1, output_dir, suffix);
    let path2 = derived_path(stem2, w2, h2, output_dir, suffix);
    if path1 == path2 {
        assert(path1 =~= head + name1);
        assert(path2 =~= head + name2);
        assert(name1 =~= path1.skip(head.len() as int));
        assert(name2 =~= path2.skip(head.len() as int));
        lemma_thumb_name_injective(stem1, w1, h1, stem2, w2, h2, suffix);
    }
}

/// Every derived name counts as derived: it holds the underscore behind its
/// stem.
pub proof fn lemma_thumb_name_is_derivative(stem: Seq<char>, w: u32, h: u32, suffix: Seq<char>)
    ensures
        is_derivative_path(thumb_name(stem, w, h, suffix)),
{
    lemma_thumb_name_parts(stem, w, h, suffix);
    let name = thumb_name(stem, w, h, suffix);
    assert(name[stem.len() as int] == '_');
}

/// Every derived path counts as derived, whatever directory it lies in.
pub proof fn lemma_derived_path_is_derivative(
    stem: Seq<char>,
    w: u32,
    h: u32,
    output_dir: Seq<char>,
    suffix: Seq<char>,
)
    ensures
        is_derivative_path(derived_path(stem, w, h, output_dir, suffix)),
{
    lemma_thumb_name_parts(stem, w, h, suffix);
    let name = thumb_name(stem, w, h, suffix);
    let path = derived_path(stem, w, h, output_dir, suffix);
    assert(path =~= output_dir + seq!['/'] + name);
    assert(path[(output_dir.len() + 1 + stem.len()) as int] == name[stem.len() as int]);
}

/// A file name is not empty and holds no `/`.
pub proof fn lemma_file_name_shape(path: Seq<char>)
    requires
        file_name_of(path) is Some,
    ensures
        file_name_of(path)->0.len() > 0,
        !file_name_of(path)->0.contains('/'),
    decreases path.len(),
{
    lemma_after_last(path, '/');
    let start = after_last(path, '/');
    let last = path.skip(start);
    if last.len() == 0 || last == seq!['.'] {
        lemma_file_name_shape(path.take(start - 1));
    } else {
        if last.contains('/') {
            let i = choose|i: int| 0 <= i < last.len() && last[i] == '/';
            assert(path[start + i] == '/');
        }
    }
}

/// The stem of a file name holds no `/`.
pub proof fn lemma_file_stem_shape(path: Seq<char>)
    requires
        file_stem_of(path) is Some,
    ensures
        !file_stem_of(path)->0.contains('/'),
{
    lemma_file_name_shape(path);
    let name = file_name_of(path)->0;
    let stem = stem_of_name(name);
    lemma_after_last(name, '.');
    if stem.contains('/') {
        let i = choose|i: int| 0 <= i < stem.len() && stem[i] == '/';
        assert(name[i] == '/');
    }
}

/// The file name of a derived path is the derived name, where neither the
/// stem nor the extension holds a `/`.
pub proof fn lemma_derived_path_file_name(
    stem: Seq<char>,
    w: u32,
    h: u32,
    output_dir: Seq<char>,
    suffix: Seq<char>,
)
    requires
        !stem.contains('/'),
        !suffix.contains('/'),
    ensures
        file_name_of(derived_path(stem, w, h, output_dir, suffix)) == Some(
            thumb_name(stem, w, h, suffix),
        ),
{
    let name = thumb_name(stem, w, h, suffix);
    let path = derived_path(stem, w, h, output_dir, suffix);
    let cut = output_dir.len() as int;
    lemma_thumb_name_parts(stem, w, h, suffix);
    let dw = decimal(w as nat);
    let dh = decimal(h as nat);
    let a = stem.len() as int;
    let nw = dw.len() as int;
    let nh = dh.len() as int;
    assert forall|i: int| 0 <= i < name.len() implies name[i] != '/' by {
        if i < a {
            assert(name[i] == stem[i]);
            assert(stem.contains(stem[i]));
        } else if i == a {
        } else if i < a + 1 + nw {
            assert(name[a + 1 + (i - a - 1)] == dw[i - a - 1]);
            assert(is_digit(dw[i - a - 1]));
        } else if i == a + 1 + nw {
        } else if i < a + 2 + nw + nh {
            assert(name[a + 2 + nw + (i - a - 2 - nw)] == dh[i - a - 2 - nw]);
            assert(is_digit(dh[i - a - 2 - nw]));
        } else if i < a + 5 + nw + nh {
        } else if i < a + 5 + nw + nh + nw {
            assert(name[a + 5 + nw + nh + (i - a - 5 - nw - nh)] == dw[i - a - 5 - nw - nh]);
            assert(is_digit(dw[i - a - 5 - nw - nh]));
        } else if i < a + 7 + nw + nh + nw {
        } else {
            let k = i - a - 7 - nw - nh - nw;
            assert(name[a + 7 + nw + nh + nw + k] == suffix[k]);
            assert(suffix.contains(suffix[k]));
        }
    }
    assert(path =~= output_dir + seq!['/'] + name);
    assert(path[cut] == '/');
    assert forall|j: int| cut < j < path.len() implies path[j] != '/' by {
        assert(path[j] == name[j - cut - 1]);
    }
    lemma_after_last(path, '/');
    assert(after_last(path, '/') == cut + 1);
    assert(path.skip(cut + 1) =~= name);
    assert(name.len() >= 3);
}

} // verus!
