//! The transform engine's bookkeeping: the units of work of a batch, the state
//! of each, and what the batch has produced once every unit is through.
//!
//! A batch is the cross product of sources and sizes. Each unit runs on its
//! own and ends as succeeded or failed; one unit's failure changes no other
//! unit. Running the units is the caller's part; the rules are here.

use vstd::prelude::*;
use vstd::string::*;
use vstd::arithmetic::div_mod::lemma_fundamental_div_mod_converse;
use crate::config::size_pairs;
use crate::naming::{
    derive_path, derived_path, file_stem, file_stem_of, lemma_derived_path_injective,
};
use crate::text::{opt_view, texts};

verus! {

/// The extension of every produced image.
pub const THUMB_EXTENSION: &'static str = "jpg";

/// Why a unit whose source has no file name fails.
pub const NO_FILE_NAME: &'static str = "source has no file name";

/// One unit of work: cut `source` to `width` by `height` and write the result
/// to `target`. A source without a file name has no target.
#[derive(Debug)]
pub struct WorkUnit {
    pub source: String,
    pub width: u32,
    pub height: u32,
    pub target: Option<String>,
}

/// A unit of work as plain values.
pub struct UnitView {
    pub source: Seq<char>,
    pub width: u32,
    pub height: u32,
    pub target: Option<Seq<char>>,
}

impl View for WorkUnit {
    type V = UnitView;

    open spec fn view(&self) -> UnitView {
        UnitView {
            source: self.source@,
            width: self.width,
            height: self.height,
            target: opt_view(self.target),
        }
    }
}

/// How far a unit has come.
#[derive(Debug)]
pub enum UnitState {
    /// Not yet handed out.
    Pending,
    /// Handed out, not yet back.
    Running,
    /// Done; holds the path of the image produced.
    Succeeded(String),
    /// Given up; holds the reason.
    Failed(String),
}

/// A unit's state as plain values.
pub enum StateView {
    Pending,
    Running,
    Succeeded(Seq<char>),
    Failed(Seq<char>),
}

impl View for UnitState {
    type V = StateView;

    open spec fn view(&self) -> StateView {
        match self {
            UnitState::Pending => StateView::Pending,
            UnitState::Running => StateView::Running,
            UnitState::Succeeded(path) => StateView::Succeeded(path@),
            UnitState::Failed(reason) => StateView::Failed(reason@),
        }
    }
}

impl StateView {
    /// The unit is through, one way or the other.
    pub open spec fn is_terminal(self) -> bool {
        self is Succeeded || self is Failed
    }

    /// The path produced, where the unit succeeded.
    pub open spec fn produced(self) -> Option<Seq<char>> {
        match self {
            StateView::Succeeded(path) => Some(path),
            _ => None,
        }
    }
}

/// The views of a list of units, one for one.
pub open spec fn unit_views(units: Seq<WorkUnit>) -> Seq<UnitView> {
    Seq::new(units.len(), |i: int| units[i]@)
}

/// The views of a list of states, one for one.
pub open spec fn state_views(states: Seq<UnitState>) -> Seq<StateView> {
    Seq::new(states.len(), |i: int| states[i]@)
}

/// The unit that cuts `source` to `size`, with its target below `output_dir`.
pub open spec fn unit_for(source: Seq<char>, size: (u32, u32), output_dir: Seq<char>) -> UnitView {
    UnitView {
        source,
        width: size.0,
        height: size.1,
        target: match file_stem_of(source) {
            Some(stem) => Some(derived_path(stem, size.0, size.1, output_dir, THUMB_EXTENSION@)),
            None => None,
        },
    }
}

/// Where the unit of source `i` and size `j` stands among the units of a
/// batch that cuts `sizes` sizes.
pub open spec fn unit_index(i: int, j: int, sizes: nat) -> int {
    i * sizes + j
}

/// The units of a batch: every source with every size, source by source. The
/// unit of source `i` and size `j` stands at `unit_index(i, j, sizes.len())`.
pub open spec fn planned_units(
    sources: Seq<Seq<char>>,
    sizes: Seq<(u32, u32)>,
    output_dir: Seq<char>,
) -> Seq<UnitView> {
    Seq::new(
        sources.len() * sizes.len(),
        |k: int| unit_for(sources[k / (sizes.len() as int)], sizes[k % (sizes.len() as int)], output_dir),
    )
}

/// The state a unit starts in: pending, or failed where it has no target.
pub open spec fn initial_state(unit: UnitView) -> StateView {
    if unit.target is Some {
        StateView::Pending
    } else {
        StateView::Failed(NO_FILE_NAME@)
    }
}

/// The number of units that are through.
pub open spec fn terminal_count(states: Seq<StateView>) -> nat
    decreases states.len(),
{
    if states.len() == 0 {
        0
    } else {
        terminal_count(states.drop_last()) + if states.last().is_terminal() {
            1nat
        } else {
            0nat
        }
    }
}

/// The rule that picks the produced path out of a state.
pub open spec fn produced_rule() -> spec_fn(StateView) -> Option<Seq<char>> {
    |state: StateView| state.produced()
}

/// The paths produced by the units that succeeded, in the order of the units.
pub open spec fn created_of(states: Seq<StateView>) -> Seq<Seq<char>> {
    states.filter_map(produced_rule())
}

/// The units of a batch: every source with every size.
pub fn plan_units(sources: &Vec<String>, sizes: &Vec<[u32; 2]>, output_dir: &str) -> (units: Vec<
    WorkUnit,
>)
    ensures
        unit_views(units@) == planned_units(texts(sources@), size_pairs(sizes@), output_dir@),
{
    let ghost planned = planned_units(texts(sources@), size_pairs(sizes@), output_dir@);
    let ghost m = sizes.len() as int;
    let mut units: Vec<WorkUnit> = Vec::new();
    let mut i: usize = 0;
    while i < sources.len()
        invariant
            i <= sources.len(),
            m == sizes.len(),
            planned == planned_units(texts(sources@), size_pairs(sizes@), output_dir@),
            units.len() == i * m,
            forall|k: int| 0 <= k < units.len() ==> (#[trigger] units[k])@ == planned[k],
        decreases sources.len() - i,
    {
        let stem = file_stem(sources[i].as_str());
        let mut j: usize = 0;
        while j < sizes.len()
            invariant
                i < sources.len(),
                j <= sizes.len(),
                m == sizes.len(),
                planned == planned_units(texts(sources@), size_pairs(sizes@), output_dir@),
                opt_view(stem) == file_stem_of(sources[i as int]@),
                units.len() == i * m + j,
                forall|k: int| 0 <= k < units.len() ==> (#[trigger] units[k])@ == planned[k],
            decreases sizes.len() - j,
        {
            let width: u32 = sizes[j][0];
            let height: u32 = sizes[j][1];
            let target = match &stem {
                Some(s) => Some(derive_path(s.as_str(), width, height, output_dir, THUMB_EXTENSION)),
                None => None,
            };
            let unit = WorkUnit { source: sources[i].clone(), width, height, target };
            proof {
                let k = i * m + j;
                lemma_fundamental_div_mod_converse(k, m, i as int, j as int);
                assert(k < sources.len() * m) by (nonlinear_arith)
                    requires
                        k == i * m + j,
                        0 <= j < m,
                        0 <= i < sources.len(),
                ;
                assert(texts(sources@)[i as int] == sources[i as int]@);
                assert(size_pairs(sizes@)[j as int] == (width, height));
                assert(unit@ == planned[k]);
            }
            units.push(unit);
            j += 1;
        }
        proof {
            assert((i + 1) * m == i * m + m) by (nonlinear_arith);
        }
        i += 1;
    }
    assert(unit_views(units@) =~= planned);
    units
}

/// A batch as plain values: its units and the state of each.
pub struct BatchView {
    pub units: Seq<UnitView>,
    pub states: Seq<StateView>,
}

impl BatchView {
    /// Each unit has a state; a unit without a target has failed; and a unit
    /// that succeeded produced its own target.
    pub open spec fn wf(self) -> bool {
        &&& self.units.len() == self.states.len()
        &&& forall|k: int|
            #![trigger self.states[k]]
            0 <= k < self.units.len() && self.units[k].target is None ==> self.states[k] is Failed
        &&& forall|k: int|
            #![trigger self.states[k]]
            0 <= k < self.units.len() && self.states[k] is Succeeded ==> self.units[k].target
                == self.states[k].produced()
    }

    /// Every unit is through.
    pub open spec fn finished(self) -> bool {
        forall|k: int| 0 <= k < self.states.len() ==> (#[trigger] self.states[k]).is_terminal()
    }

    /// The state that unit `k` ends in when it comes back with `failure`.
    pub open spec fn end_state(self, k: int, failure: Option<Seq<char>>) -> StateView {
        match failure {
            Some(reason) => StateView::Failed(reason),
            None => StateView::Succeeded(self.units[k].target->0),
        }
    }
}

/// The units of one run of the engine and how far each has come.
pub struct Batch {
    units: Vec<WorkUnit>,
    states: Vec<UnitState>,
    done: usize,
}

impl View for Batch {
    type V = BatchView;

    /// A batch is seen as its units and their states. The count it keeps of
    /// the units that are through adds nothing: `wf` ties it to the states.
    closed spec fn view(&self) -> BatchView {
        BatchView { units: unit_views(self.units@), states: state_views(self.states@) }
    }
}

/// A state changes the count of units that are through by what it adds less
/// what the state before it added.
pub proof fn lemma_terminal_count_update(states: Seq<StateView>, k: int, state: StateView)
    requires
        0 <= k < states.len(),
    ensures
        terminal_count(states.update(k, state)) + (if states[k].is_terminal() {
            1nat
        } else {
            0nat
        }) == terminal_count(states) + (if state.is_terminal() {
            1nat
        } else {
            0nat
        }),
    decreases states.len(),
{
    let after = states.update(k, state);
    if k == states.len() - 1 {
        assert(after.drop_last() =~= states.drop_last());
    } else {
        lemma_terminal_count_update(states.drop_last(), k, state);
        assert(after.drop_last() =~= states.drop_last().update(k, state));
    }
}

/// No more units are through than there are, and all are through exactly
/// where the count says so.
pub proof fn lemma_terminal_count_bound(states: Seq<StateView>)
    ensures
        terminal_count(states) <= states.len(),
        terminal_count(states) == states.len() <==> forall|k: int|
            0 <= k < states.len() ==> (#[trigger] states[k]).is_terminal(),
    decreases states.len(),
{
    if states.len() > 0 {
        let front = states.drop_last();
        lemma_terminal_count_bound(front);
        if terminal_count(states) == states.len() {
            assert forall|k: int| 0 <= k < states.len() implies #[trigger] states[k].is_terminal() by {
                if k < front.len() {
                    assert(front[k].is_terminal());
                }
            }
        }
        if forall|k: int| 0 <= k < states.len() ==> (#[trigger] states[k]).is_terminal() {
            assert forall|k: int| 0 <= k < front.len() implies #[trigger] front[k].is_terminal() by {
                assert(states[k].is_terminal());
            }
            assert(states.last().is_terminal());
        }
    }
}

impl Batch {
    /// What holds of every batch between calls: its view is well formed and
    /// its counter says how many units are through.
    pub closed spec fn wf(&self) -> bool {
        &&& self@.wf()
        &&& self.done == terminal_count(self@.states)
    }

    /// A batch that is well formed has a well-formed view.
    pub proof fn lemma_wf_view(&self)
        requires
            self.wf(),
        ensures
            self@.wf(),
    {
    }

    /// Plans a batch: one unit for every source and size, each in its first
    /// state.
    pub fn plan(sources: &Vec<String>, sizes: &Vec<[u32; 2]>, output_dir: &str) -> (batch: Batch)
        ensures
            batch.wf(),
            batch@.units == planned_units(texts(sources@), size_pairs(sizes@), output_dir@),
            batch@.states == Seq::new(
                batch@.units.len(),
                |k: int| initial_state(batch@.units[k]),
            ),
    {
        let units = plan_units(sources, sizes, output_dir);
        let mut states: Vec<UnitState> = Vec::new();
        let mut done: usize = 0;
        let mut k: usize = 0;
        while k < units.len()
            invariant
                k <= units.len(),
                states.len() == k,
                done == terminal_count(state_views(states@)),
                done <= k,
                forall|i: int| 0 <= i < k ==> (#[trigger] states[i])@ == initial_state(units[i]@),
            decreases units.len() - k,
        {
            let ghost before = state_views(states@);
            match &units[k].target {
                Some(_) => {
                    states.push(UnitState::Pending);
                },
                None => {
                    states.push(UnitState::Failed(NO_FILE_NAME.to_owned()));
                    done += 1;
                },
            }
            proof {
                assert(state_views(states@).drop_last() =~= before);
            }
            k += 1;
        }
        let batch = Batch { units, states, done };
        proof {
            assert(batch@.states =~= Seq::new(
                batch@.units.len(),
                |k: int| initial_state(batch@.units[k]),
            ));
        }
        batch
    }

    /// The number of units.
    pub fn total(&self) -> (n: usize)
        requires
            self.wf(),
        ensures
            n == self@.units.len(),
    {
        self.units.len()
    }

    /// The number of units that are through, succeeded or failed.
    pub fn completed(&self) -> (n: usize)
        requires
            self.wf(),
        ensures
            n == terminal_count(self@.states),
            n <= self@.units.len(),
    {
        proof {
            lemma_terminal_count_bound(self@.states);
        }
        self.done
    }

    /// Whether every unit is through.
    pub fn is_finished(&self) -> (finished: bool)
        requires
            self.wf(),
        ensures
            finished == self@.finished(),
    {
        proof {
            lemma_terminal_count_bound(self@.states);
        }
        self.done == self.states.len()
    }

    /// Unit `k`, if there is one.
    pub fn unit(&self, k: usize) -> (unit: Option<&WorkUnit>)
        requires
            self.wf(),
        ensures
            match unit {
                Some(u) => k < self@.units.len() && u@ == self@.units[k as int],
                None => k >= self@.units.len(),
            },
    {
        if k < self.units.len() {
            Some(&self.units[k])
        } else {
            None
        }
    }

    /// Hands unit `k` out: a pending unit is now running. Any other unit, and
    /// every other state, stays as it is.
    pub fn start(&mut self, k: usize) -> (started: bool)
        requires
            old(self).wf(),
        ensures
            final(self).wf(),
            final(self)@.units == old(self)@.units,
            started == (k < old(self)@.states.len() && old(self)@.states[k as int] is Pending),
            started ==> final(self)@.states == old(self)@.states.update(
                k as int,
                StateView::Running,
            ),
            !started ==> final(self)@.states == old(self)@.states,
            forall|i: int|
                0 <= i < old(self)@.states.len() ==> moves_forward(
                    old(self)@.states[i],
                    #[trigger] final(self)@.states[i],
                ),
    {
        if k >= self.states.len() {
            return false;
        }
        match &self.states[k] {
            UnitState::Pending => {},
            _ => {
                return false;
            },
        }
        let ghost before = self@.states;
        self.states.set(k, UnitState::Running);
        proof {
            assert(self@.states =~= before.update(k as int, StateView::Running));
            assert(self@.units =~= old(self)@.units);
            lemma_terminal_count_update(before, k as int, StateView::Running);
        }
        true
    }

    /// Takes unit `k` back: a running unit has succeeded with its target, or
    /// has failed for the reason given. Any other unit, and every other state,
    /// stays as it is.
    pub fn finish(&mut self, k: usize, failure: Option<String>) -> (recorded: bool)
        requires
            old(self).wf(),
        ensures
            final(self).wf(),
            final(self)@.units == old(self)@.units,
            recorded == (k < old(self)@.states.len() && old(self)@.states[k as int] is Running),
            recorded ==> final(self)@.states == old(self)@.states.update(
                k as int,
                old(self)@.end_state(k as int, opt_view(failure)),
            ),
            !recorded ==> final(self)@.states == old(self)@.states,
            forall|i: int|
                0 <= i < old(self)@.states.len() ==> moves_forward(
                    old(self)@.states[i],
                    #[trigger] final(self)@.states[i],
                ),
    {
        if k >= self.states.len() {
            return false;
        }
        match &self.states[k] {
            UnitState::Running => {},
            _ => {
                return false;
            },
        }
        let ghost before = self@.states;
        let ghost end = self@.end_state(k as int, opt_view(failure));
        assert(self@.units[k as int].target is Some);
        let state = match failure {
            Some(reason) => UnitState::Failed(reason),
            None => match &self.units[k].target {
                Some(path) => UnitState::Succeeded(path.clone()),
                None => UnitState::Failed(NO_FILE_NAME.to_owned()),
            },
        };
        assert(state@ == end);
        proof {
            lemma_terminal_count_bound(before);
            assert(!before[k as int].is_terminal());
        }
        self.states.set(k, state);
        self.done = self.done + 1;
        proof {
            assert(self@.states =~= before.update(k as int, end));
            assert(self@.units =~= old(self)@.units);
            lemma_terminal_count_update(before, k as int, end);
        }
        true
    }

    /// What the batch produced: the targets of the units that succeeded, in
    /// the order of the units. There is no result before every unit is through.
    pub fn created(&self) -> (paths: Option<Vec<String>>)
        requires
            self.wf(),
        ensures
            paths is Some <==> self@.finished(),
            paths matches Some(list) ==> texts(list@) == created_of(self@.states),
    {
        if !self.is_finished() {
            return None;
        }
        let ghost states = self@.states;
        let mut list: Vec<String> = Vec::new();
        let mut k: usize = 0;
        while k < self.states.len()
            invariant
                k <= self.states.len(),
                states == state_views(self.states@),
                texts(list@) == states.take(k as int).filter_map(produced_rule()),
            decreases self.states.len() - k,
        {
            let ghost so_far = texts(list@);
            proof {
                states.lemma_filter_map_take_succ(produced_rule(), k as int);
                assert(states[k as int] == self.states[k as int]@);
            }
            match &self.states[k] {
                UnitState::Succeeded(path) => {
                    list.push(path.clone());
                    assert(texts(list@) =~= so_far + seq![path@]);
                },
                _ => {},
            }
            k += 1;
        }
        assert(states.take(states.len() as int) =~= states);
        Some(list)
    }
}

/// The targets of the units, one for one.
pub open spec fn targets_of(units: Seq<UnitView>) -> Seq<Seq<char>> {
    Seq::new(units.len(), |k: int| units[k].target->0)
}

/// A path is among those produced exactly where some unit succeeded with it:
/// what a batch produced depends on each unit's own end alone.
pub proof fn lemma_created_membership(states: Seq<StateView>, path: Seq<char>)
    ensures
        created_of(states).contains(path) <==> exists|k: int|
            0 <= k < states.len() && #[trigger] states[k] == StateView::Succeeded(path),
    decreases states.len(),
{
    let created = created_of(states);
    if states.len() == 0 {
        assert(created =~= Seq::<Seq<char>>::empty());
    } else {
        let front = states.drop_last();
        let last = states.last();
        lemma_created_membership(front, path);
        let before = created_of(front);
        if created.contains(path) {
            let i = choose|i: int| 0 <= i < created.len() && created[i] == path;
            if i < before.len() {
                assert(before[i] == path);
                assert(before.contains(path));
                let k = choose|k: int|
                    0 <= k < front.len() && #[trigger] front[k] == StateView::Succeeded(path);
                assert(states[k] == StateView::Succeeded(path));
            } else {
                assert(last == StateView::Succeeded(path));
                assert(states[states.len() - 1] == StateView::Succeeded(path));
            }
        }
        if exists|k: int| 0 <= k < states.len() && #[trigger] states[k] == StateView::Succeeded(path) {
            let k = choose|k: int|
                0 <= k < states.len() && #[trigger] states[k] == StateView::Succeeded(path);
            if k < front.len() {
                assert(front[k] == StateView::Succeeded(path));
                assert(before.contains(path));
                let i = choose|i: int| 0 <= i < before.len() && before[i] == path;
                assert(created[i] == path);
            } else {
                assert(created[created.len() - 1] == path);
            }
        }
    }
}

/// Where every unit but `failed` succeeded, what was produced is what every
/// unit but `failed` produced, in the order of the units.
proof fn lemma_created_without(states: Seq<StateView>, failed: int)
    requires
        forall|k: int| 0 <= k < states.len() && k != failed ==> (#[trigger] states[k]) is Succeeded,
        0 <= failed < states.len() ==> !(states[failed] is Succeeded),
    ensures
        created_of(states) == if 0 <= failed < states.len() {
            Seq::new(states.len(), |k: int| states[k].produced()->0).remove(failed)
        } else {
            Seq::new(states.len(), |k: int| states[k].produced()->0)
        },
    decreases states.len(),
{
    let all = Seq::new(states.len(), |k: int| states[k].produced()->0);
    if states.len() == 0 {
        assert(created_of(states) =~= all);
    } else {
        let front = states.drop_last();
        let front_all = Seq::new(front.len(), |k: int| front[k].produced()->0);
        lemma_created_without(front, failed);
        if failed == states.len() - 1 {
            assert(created_of(states) =~= all.remove(failed));
        } else if 0 <= failed < states.len() {
            assert(states[states.len() - 1] is Succeeded);
            assert(created_of(states) =~= all.remove(failed));
        } else {
            assert(states[states.len() - 1] is Succeeded);
            assert(created_of(states) =~= all);
        }
    }
}

/// Completeness: where every unit of a planned batch succeeded, the batch
/// produced one path for every pair of a source and a size, the path of
/// source `i` and size `j` at `unit_index(i, j, sizes.len())`, and nothing
/// else.
pub proof fn lemma_complete_batch(
    sources: Seq<Seq<char>>,
    sizes: Seq<(u32, u32)>,
    output_dir: Seq<char>,
    batch: BatchView,
)
    requires
        batch.wf(),
        batch.units == planned_units(sources, sizes, output_dir),
        forall|k: int| 0 <= k < batch.states.len() ==> (#[trigger] batch.states[k]) is Succeeded,
    ensures
        created_of(batch.states).len() == sources.len() * sizes.len(),
        created_of(batch.states) == targets_of(batch.units),
        forall|i: int, j: int|
            0 <= i < sources.len() && 0 <= j < sizes.len() ==> {
                &&& 0 <= #[trigger] unit_index(i, j, sizes.len()) < sources.len() * sizes.len()
                &&& file_stem_of(sources[i]) is Some
                &&& created_of(batch.states)[unit_index(i, j, sizes.len())] == derived_path(
                    file_stem_of(sources[i])->0,
                    sizes[j].0,
                    sizes[j].1,
                    output_dir,
                    THUMB_EXTENSION@,
                )
            },
{
    let created = created_of(batch.states);
    let m = sizes.len() as int;
    lemma_created_without(batch.states, -1);
    assert(created =~= targets_of(batch.units)) by {
        assert forall|k: int| 0 <= k < batch.units.len() implies batch.states[k].produced()->0
            == batch.units[k].target->0 by {
            assert(batch.states[k] is Succeeded);
        }
    }
    assert forall|i: int, j: int| 0 <= i < sources.len() && 0 <= j < sizes.len() implies {
        &&& 0 <= #[trigger] unit_index(i, j, sizes.len()) < sources.len() * sizes.len()
        &&& file_stem_of(sources[i]) is Some
        &&& created[unit_index(i, j, sizes.len())] == derived_path(
            file_stem_of(sources[i])->0,
            sizes[j].0,
            sizes[j].1,
            output_dir,
            THUMB_EXTENSION@,
        )
    } by {
        let k = i * m + j;
        lemma_fundamental_div_mod_converse(k, m, i, j);
        assert(0 <= k < sources.len() * m) by (nonlinear_arith)
            requires
                k == i * m + j,
                0 <= j < m,
                0 <= i < sources.len(),
        ;
        assert(batch.units[k] == unit_for(sources[i], sizes[j], output_dir));
        assert(batch.states[k] is Succeeded);
        assert(batch.units[k].target is Some);
    }
}

/// Failure isolation: where one unit failed and every other unit succeeded,
/// the batch produced the targets of all the others, in the order of the
/// units, and the failed unit added nothing.
pub proof fn lemma_failure_is_isolated(batch: BatchView, failed: int)
    requires
        batch.wf(),
        0 <= failed < batch.states.len(),
        batch.states[failed] is Failed,
        forall|k: int|
            0 <= k < batch.states.len() && k != failed ==> (#[trigger] batch.states[k]) is Succeeded,
    ensures
        created_of(batch.states) == targets_of(batch.units).remove(failed),
        created_of(batch.states).len() == batch.units.len() - 1,
{
    lemma_created_without(batch.states, failed);
    let all = Seq::new(batch.states.len(), |k: int| batch.states[k].produced()->0);
    assert(all.remove(failed) =~= targets_of(batch.units).remove(failed)) by {
        assert forall|k: int| 0 <= k < batch.units.len() && k != failed implies all[k]
            == targets_of(batch.units)[k] by {
            assert(batch.states[k] is Succeeded);
        }
    }
}

/// Units that differ in the stem of their source or in their size write to
/// different targets, so units that run side by side never share a file.
pub proof fn lemma_targets_distinct(
    first: Seq<char>,
    first_size: (u32, u32),
    second: Seq<char>,
    second_size: (u32, u32),
    output_dir: Seq<char>,
)
    requires
        file_stem_of(first) is Some,
        file_stem_of(second) is Some,
        file_stem_of(first) != file_stem_of(second) || first_size != second_size,
    ensures
        unit_for(first, first_size, output_dir).target != unit_for(
            second,
            second_size,
            output_dir,
        ).target,
{
    lemma_derived_path_injective(
        file_stem_of(first)->0,
        first_size.0,
        first_size.1,
        file_stem_of(second)->0,
        second_size.0,
        second_size.1,
        output_dir,
        THUMB_EXTENSION@,
    );
}

/// Between the calls of a batch a unit never goes back: once running it is
/// never pending again, and once through it stays as it ended.
pub open spec fn moves_forward(before: StateView, after: StateView) -> bool {
    match before {
        StateView::Pending => after is Pending || after is Running,
        StateView::Running => !(after is Pending),
        _ => after == before,
    }
}

} // verus!
