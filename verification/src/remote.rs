//! Reconciliation with a remote object store: which keys of a listing are
//! sources worth fetching, where each one lands locally, and under which key a
//! produced image is published.
//!
//! The transport itself is not here. These rules take a listing and give back
//! what to fetch and what to name things.

use vstd::prelude::*;
use vstd::string::*;
use crate::engine::{unit_for, THUMB_EXTENSION};
use crate::naming::{
    file_name, file_name_of, file_stem_of, is_derivative_path, lemma_derived_path_file_name,
    lemma_file_stem_shape, thumb_name,
};
use crate::text::{
    chars_have_substring, chars_of, first_index, first_index_in, has_substring,
    lemma_first_index, opt_view, range_has_char, same_text, texts,
};

verus! {

/// The content type under which produced images are published.
pub const CONTENT_TYPE: &'static str = "image/jpeg";

/// The key carries one of the size tokens of earlier layouts.
pub open spec fn has_size_marker(key: Seq<char>) -> bool {
    ||| has_substring(key, "_200"@)
    ||| has_substring(key, "_400"@)
    ||| has_substring(key, "_800"@)
    ||| has_substring(key, "_1920"@)
    ||| has_substring(key, "_thumb"@)
}

/// The key names no object of its own: it is empty, or it is the prefix
/// listed as an object, `<prefix>/`.
pub open spec fn is_marker_key(key: Seq<char>, prefix: Seq<char>) -> bool {
    key.len() == 0 || key == prefix + seq!['/']
}

/// The key is a source to fetch. Keys with a size token and marker keys never
/// are; a key with an underscore is one only where overwriting is asked for.
pub open spec fn accepts_key(key: Seq<char>, prefix: Seq<char>, overwrite: bool) -> bool {
    &&& !has_size_marker(key)
    &&& !is_marker_key(key, prefix)
    &&& (overwrite || !is_derivative_path(key))
}

/// `accepts_key` as a rule on keys, for a given prefix and policy.
pub open spec fn key_rule(prefix: Seq<char>, overwrite: bool) -> spec_fn(Seq<char>) -> bool {
    |key: Seq<char>| accepts_key(key, prefix, overwrite)
}

/// The keys of a listing that are fetched, in the order of the listing.
pub open spec fn accepted_keys(keys: Seq<Seq<char>>, prefix: Seq<char>, overwrite: bool) -> Seq<
    Seq<char>,
> {
    keys.filter(key_rule(prefix, overwrite))
}

/// The key without its first segment; all of it where it has only one.
pub open spec fn flattened_key(key: Seq<char>) -> Seq<char> {
    if key.contains('/') {
        key.skip(first_index(key, '/') + 1)
    } else {
        key
    }
}

/// Where the object `key` lands below `destination_dir`.
pub open spec fn download_target(destination_dir: Seq<char>, key: Seq<char>) -> Seq<char> {
    destination_dir + seq!['/'] + flattened_key(key)
}

/// The key under which the file at `path` is published, where it has a name.
pub open spec fn publish_key(prefix: Seq<char>, path: Seq<char>) -> Option<Seq<char>> {
    match file_name_of(path) {
        Some(name) => Some(prefix + seq!['/'] + name),
        None => None,
    }
}

/// Whether `key` carries one of the size tokens of earlier layouts.
pub fn key_has_size_marker(key: &str) -> (marked: bool)
    ensures
        marked == has_size_marker(key@),
{
    let chars = chars_of(key);
    chars_have_substring(&chars, &chars_of("_200")) || chars_have_substring(
        &chars,
        &chars_of("_400"),
    ) || chars_have_substring(&chars, &chars_of("_800")) || chars_have_substring(
        &chars,
        &chars_of("_1920"),
    ) || chars_have_substring(&chars, &chars_of("_thumb"))
}

/// Whether `key` is a source to fetch.
pub fn key_is_accepted(key: &str, prefix: &str, overwrite: bool) -> (accepted: bool)
    ensures
        accepted == accepts_key(key@, prefix@, overwrite),
{
    if key_has_size_marker(key) {
        return false;
    }
    if key.is_empty() {
        return false;
    }
    proof {
        reveal_strlit("/");
        assert("/"@ =~= seq!['/']);
    }
    let mut marker = prefix.to_owned();
    marker.append("/");
    if same_text(key, marker.as_str()) {
        return false;
    }
    if overwrite {
        return true;
    }
    let chars = chars_of(key);
    assert(chars@.subrange(0, chars@.len() as int) =~= chars@);
    !range_has_char(&chars, 0, chars.len(), '_')
}

/// The keys of `keys` that are fetched, in the order of the listing.
pub fn select_keys(keys: &Vec<String>, prefix: &str, overwrite: bool) -> (selected: Vec<String>)
    ensures
        texts(selected@) == accepted_keys(texts(keys@), prefix@, overwrite),
{
    let ghost rule = key_rule(prefix@, overwrite);
    let mut selected: Vec<String> = Vec::new();
    let mut i: usize = 0;
    proof {
        assert(texts(keys@.take(0)) =~= Seq::<Seq<char>>::empty());
        reveal(Seq::filter);
        assert(texts(selected@) =~= texts(keys@.take(0)).filter(rule));
    }
    while i < keys.len()
        invariant
            i <= keys.len(),
            rule == key_rule(prefix@, overwrite),
            texts(selected@) == texts(keys@.take(i as int)).filter(rule),
        decreases keys.len() - i,
    {
        let ghost before = texts(keys@.take(i as int));
        let ghost chosen = texts(selected@);
        proof {
            assert(texts(keys@.take(i + 1)) =~= before.push(keys[i as int]@));
            before.lemma_filter_push(keys[i as int]@, rule);
        }
        if key_is_accepted(keys[i].as_str(), prefix, overwrite) {
            selected.push(keys[i].clone());
            assert(texts(selected@) =~= chosen.push(keys[i as int]@));
        }
        i += 1;
    }
    assert(keys@.take(keys.len() as int) =~= keys@);
    selected
}

/// The key without its first segment.
pub fn flatten_key(key: &str) -> (flat: String)
    ensures
        flat@ == flattened_key(key@),
{
    let chars = chars_of(key);
    let n = chars.len();
    let cut = first_index_in(&chars, '/');
    proof {
        lemma_first_index(chars@, '/');
    }
    if cut == n {
        key.to_owned()
    } else {
        assert(key@.skip(cut + 1) =~= key@.subrange(cut + 1, n as int));
        key.substring_char(cut + 1, n).to_owned()
    }
}

/// Where the object `key` lands below `destination_dir`.
pub fn download_path(destination_dir: &str, key: &str) -> (path: String)
    ensures
        path@ == download_target(destination_dir@, key@),
{
    proof {
        reveal_strlit("/");
        assert("/"@ =~= seq!['/']);
    }
    let flat = flatten_key(key);
    let mut path = destination_dir.to_owned();
    path.append("/");
    path.append(flat.as_str());
    path
}

/// One object to fetch, and the local path to write it to.
#[derive(Debug)]
pub struct Download {
    pub key: String,
    pub target: String,
}

/// What to fetch from a listing: every accepted key, in the order of the
/// listing, with the path it lands at below `destination_dir`.
pub fn plan_fetch(keys: &Vec<String>, prefix: &str, destination_dir: &str, overwrite: bool) -> (plan:
    Vec<Download>)
    ensures
        plan.len() == accepted_keys(texts(keys@), prefix@, overwrite).len(),
        forall|i: int|
            0 <= i < plan.len() ==> {
                &&& (#[trigger] plan[i]).key@ == accepted_keys(texts(keys@), prefix@, overwrite)[i]
                &&& plan[i].target@ == download_target(destination_dir@, plan[i].key@)
            },
{
    let selected = select_keys(keys, prefix, overwrite);
    let mut plan: Vec<Download> = Vec::new();
    let mut i: usize = 0;
    while i < selected.len()
        invariant
            i <= selected.len(),
            plan.len() == i,
            forall|j: int|
                0 <= j < i ==> {
                    &&& (#[trigger] plan[j]).key@ == selected[j]@
                    &&& plan[j].target@ == download_target(destination_dir@, selected[j]@)
                },
        decreases selected.len() - i,
    {
        let target = download_path(destination_dir, selected[i].as_str());
        plan.push(Download { key: selected[i].clone(), target });
        i += 1;
    }
    assert forall|i: int| 0 <= i < plan.len() implies (#[trigger] plan[i]).key@ == accepted_keys(
        texts(keys@),
        prefix@,
        overwrite,
    )[i] by {
        assert(texts(selected@)[i] == selected[i]@);
    }
    plan
}

/// The key under which the file at `path` is published below `prefix`: the
/// prefix, a `/`, and the file's name. Directories above the name are dropped,
/// so files of the same name from different directories share one key.
pub fn upload_key(prefix: &str, path: &str) -> (key: Option<String>)
    ensures
        opt_view(key) == publish_key(prefix@, path@),
{
    proof {
        reveal_strlit("/");
        assert("/"@ =~= seq!['/']);
    }
    match file_name(path) {
        Some(name) => {
            let mut key = prefix.to_owned();
            key.append("/");
            key.append(name.as_str());
            Some(key)
        },
        None => None,
    }
}

/// Whatever the engine plans to produce can be published: the target of a
/// unit has a file name, its derived name, and so a key below any prefix.
pub proof fn lemma_targets_are_publishable(
    source: Seq<char>,
    size: (u32, u32),
    output_dir: Seq<char>,
    prefix: Seq<char>,
)
    requires
        file_stem_of(source) is Some,
    ensures
        unit_for(source, size, output_dir).target is Some,
        publish_key(prefix, unit_for(source, size, output_dir).target->0) == Some(
            prefix + seq!['/'] + thumb_name(
                file_stem_of(source)->0,
                size.0,
                size.1,
                THUMB_EXTENSION@,
            ),
        ),
{
    lemma_file_stem_shape(source);
    reveal_strlit("jpg");
    lemma_derived_path_file_name(
        file_stem_of(source)->0,
        size.0,
        size.1,
        output_dir,
        THUMB_EXTENSION@,
    );
}

} // verus!
