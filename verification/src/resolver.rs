//! The file set of a run: of the entries of a directory, those that are
//! sources.
//!
//! Reading the directory is the caller's part. Entries that count as derived
//! images are left out, so a run over a directory that holds its own earlier
//! output finds there nothing to do.

use vstd::prelude::*;
use vstd::string::*;
use crate::naming::{
    derived_path, is_derivative, is_derivative_path, lemma_derived_path_is_derivative,
};
use crate::text::texts;

verus! {

/// The rule that keeps an entry: it does not count as derived.
pub open spec fn source_rule() -> spec_fn(Seq<char>) -> bool {
    |path: Seq<char>| !is_derivative_path(path)
}

/// The entries that are sources, in the order of the entries.
pub open spec fn sources_among(entries: Seq<Seq<char>>) -> Seq<Seq<char>> {
    entries.filter(source_rule())
}

/// The path is one that naming gives to a derived image.
pub open spec fn is_derived_path(path: Seq<char>) -> bool {
    exists|stem: Seq<char>, w: u32, h: u32, output_dir: Seq<char>, suffix: Seq<char>|
        path == #[trigger] derived_path(stem, w, h, output_dir, suffix)
}

/// The sources among the entries of a directory, in the order given.
pub fn select_sources(entries: &Vec<String>) -> (sources: Vec<String>)
    ensures
        texts(sources@) == sources_among(texts(entries@)),
{
    let ghost rule = source_rule();
    let mut sources: Vec<String> = Vec::new();
    let mut i: usize = 0;
    proof {
        assert(texts(entries@.take(0)) =~= Seq::<Seq<char>>::empty());
        reveal(Seq::filter);
        assert(texts(sources@) =~= texts(entries@.take(0)).filter(rule));
    }
    while i < entries.len()
        invariant
            i <= entries.len(),
            rule == source_rule(),
            texts(sources@) == texts(entries@.take(i as int)).filter(rule),
        decreases entries.len() - i,
    {
        let ghost before = texts(entries@.take(i as int));
        let ghost kept = texts(sources@);
        proof {
            assert(texts(entries@.take(i + 1)) =~= before.push(entries[i as int]@));
            before.lemma_filter_push(entries[i as int]@, rule);
        }
        if !is_derivative(entries[i].as_str()) {
            sources.push(entries[i].clone());
            assert(texts(sources@) =~= kept.push(entries[i as int]@));
        }
        i += 1;
    }
    assert(entries@.take(entries.len() as int) =~= entries@);
    sources
}

/// No source counts as derived, and every entry that does not is a source.
pub proof fn lemma_sources_are_not_derived(entries: Seq<Seq<char>>)
    ensures
        forall|i: int|
            0 <= i < sources_among(entries).len() ==> !is_derivative_path(
                #[trigger] sources_among(entries)[i],
            ),
        forall|i: int|
            0 <= i < entries.len() && !is_derivative_path(entries[i]) ==> sources_among(
                entries,
            ).contains(#[trigger] entries[i]),
{
    let rule = source_rule();
    assert forall|i: int| 0 <= i < sources_among(entries).len() implies !is_derivative_path(
        #[trigger] sources_among(entries)[i],
    ) by {
        entries.lemma_filter_pred(rule, i);
    }
    assert forall|i: int|
        0 <= i < entries.len() && !is_derivative_path(entries[i]) implies sources_among(
        entries,
    ).contains(#[trigger] entries[i]) by {
        entries.lemma_filter_contains(rule, i);
    }
}

/// A directory that holds only derived images holds no source: a run over the
/// output of an earlier run finds nothing to do.
pub proof fn lemma_own_output_is_excluded(entries: Seq<Seq<char>>)
    requires
        forall|i: int| 0 <= i < entries.len() ==> is_derived_path(#[trigger] entries[i]),
    ensures
        sources_among(entries).len() == 0,
{
    let rule = source_rule();
    let kept = sources_among(entries);
    if kept.len() > 0 {
        entries.lemma_filter_pred(rule, 0);
        assert(kept.contains(kept[0]));
        entries.lemma_filter_contains_rev(rule, kept[0]);
        let i = choose|i: int| 0 <= i < entries.len() && entries[i] == kept[0];
        assert(is_derived_path(entries[i]));
        let (stem, w, h, output_dir, suffix) = choose|
            stem: Seq<char>,
            w: u32,
            h: u32,
            output_dir: Seq<char>,
            suffix: Seq<char>,
        | entries[i] == #[trigger] derived_path(stem, w, h, output_dir, suffix);
        lemma_derived_path_is_derivative(stem, w, h, output_dir, suffix);
    }
}

} // verus!
