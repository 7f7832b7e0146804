//! The statistical language model: a finite table of n-gram context states.
//!
//! Each state carries the transitions taken when a word is entered and the
//! ranked candidate list predicted at that state.  State `0` is the
//! distinguished default (empty-context) state.  A word with no transition
//! entry falls back to the default state, which makes the transition
//! function total.

use vstd::prelude::*;

verus! {

/// Why a language model could not be built from its backing data.
#[derive(Clone, Copy, PartialEq, Eq, Structural, Debug)]
pub enum LoadError {
    /// The state table is empty, so there is no default state.
    NoStates,
    /// Some transition points at a state index outside the table.
    TransitionTargetOutOfRange,
    /// Some state's candidate list is not probability-descending.
    PredictionsNotDescending,
    /// Some state's candidate list names a word twice.
    DuplicatePredictionWord,
    /// Some key center of the keyboard layout lies outside the layout
    /// square.
    KeyCenterOutOfRange,
}

/// One n-gram context state: its outgoing transitions and the ranked
/// candidate list predicted there.
#[derive(Debug)]
pub struct LmStateData {
    /// `(word, next state)` pairs; the first matching word decides.
    pub transitions: Vec<(String, usize)>,
    /// `(word, probability)` candidates, probability-descending.  The
    /// probability is a fixed-point weight; only its order matters here.
    pub predictions: Vec<(String, u64)>,
}

/// A validated language model.  State `0` is the default state.
#[derive(Debug)]
pub struct LanguageModel {
    pub states: Vec<LmStateData>,
}

/// The candidate pair as the contracts speak of it: the word's characters
/// and its probability weight.
pub open spec fn cand_view(c: (String, u64)) -> (Seq<char>, u64) {
    (c.0@, c.1)
}

/// A whole candidate list, viewed.
pub open spec fn cands_view(s: Seq<(String, u64)>) -> Seq<(Seq<char>, u64)> {
    s.map_values(|c: (String, u64)| cand_view(c))
}

/// Every transition of the list stays inside a table of `n_states` states.
pub open spec fn transitions_in_range(trs: Seq<(String, usize)>, n_states: int) -> bool {
    forall|i: int| 0 <= i < trs.len() ==> (#[trigger] trs[i]).1 < n_states
}

/// The candidate list is probability-descending.
pub open spec fn preds_descending(preds: Seq<(String, u64)>) -> bool {
    forall|i: int| 0 <= i < preds.len() - 1 ==> (#[trigger] preds[i]).1 >= preds[i + 1].1
}

/// No word occurs twice in the candidate list.
pub open spec fn preds_unique(preds: Seq<(String, u64)>) -> bool {
    forall|i: int, j: int|
        0 <= i < j < preds.len() ==> (#[trigger] preds[i]).0@ != (#[trigger] preds[j]).0@
}

/// Well-formedness of one state against a table of `n_states` states.
pub open spec fn state_data_valid(s: LmStateData, n_states: int) -> bool {
    &&& transitions_in_range(s.transitions@, n_states)
    &&& preds_descending(s.predictions@)
    &&& preds_unique(s.predictions@)
}

/// Well-formedness of the whole backing table.
pub open spec fn model_data_valid(states: Seq<LmStateData>) -> bool {
    &&& states.len() >= 1
    &&& forall|i: int| 0 <= i < states.len() ==> state_data_valid(#[trigger] states[i], states.len() as int)
}

/// Every state's transitions stay inside the table.
pub open spec fn all_transitions_ok(states: Seq<LmStateData>) -> bool {
    forall|i: int|
        0 <= i < states.len() ==> transitions_in_range(
            (#[trigger] states[i]).transitions@,
            states.len() as int,
        )
}

/// Every state's candidate list is probability-descending.
pub open spec fn all_preds_descending(states: Seq<LmStateData>) -> bool {
    forall|i: int| 0 <= i < states.len() ==> preds_descending((#[trigger] states[i]).predictions@)
}

/// No state's candidate list names a word twice.
pub open spec fn all_preds_unique(states: Seq<LmStateData>) -> bool {
    forall|i: int| 0 <= i < states.len() ==> preds_unique((#[trigger] states[i]).predictions@)
}

/// The error that loading the given backing table reports, or `None` when
/// the table is well-formed.  Checks run in a fixed order, so the error is
/// determined by the data.
pub open spec fn load_error_spec(states: Seq<LmStateData>) -> Option<LoadError> {
    if states.len() == 0 {
        Some(LoadError::NoStates)
    } else if !all_transitions_ok(states) {
        Some(LoadError::TransitionTargetOutOfRange)
    } else if !all_preds_descending(states) {
        Some(LoadError::PredictionsNotDescending)
    } else if !all_preds_unique(states) {
        Some(LoadError::DuplicatePredictionWord)
    } else {
        None
    }
}

/// The first transition of the list whose word matches, if any.
pub open spec fn find_transition(trs: Seq<(String, usize)>, w: Seq<char>) -> Option<usize>
    decreases trs.len(),
{
    if trs.len() == 0 {
        None
    } else if trs[0].0@ == w {
        Some(trs[0].1)
    } else {
        find_transition(trs.drop_first(), w)
    }
}

/// If no transition among the first `i` matches, the search result over the
/// whole list equals the result over the remainder.
pub proof fn lemma_find_transition_skip(trs: Seq<(String, usize)>, w: Seq<char>, i: int)
    requires
        0 <= i <= trs.len(),
        forall|j: int| 0 <= j < i ==> (#[trigger] trs[j]).0@ != w,
    ensures
        find_transition(trs, w) == find_transition(trs.skip(i), w),
    decreases i,
{
    if i > 0 {
        lemma_find_transition_skip(trs.drop_first(), w, i - 1);
        assert(trs.drop_first().skip(i - 1) =~= trs.skip(i));
    } else {
        assert(trs.skip(0) =~= trs);
    }
}

/// A found transition of an in-range transition list stays in range.
pub proof fn lemma_find_transition_in_range(trs: Seq<(String, usize)>, w: Seq<char>, n: int)
    requires
        transitions_in_range(trs, n),
    ensures
        find_transition(trs, w) matches Some(t) ==> t < n,
    decreases trs.len(),
{
    if trs.len() > 0 && trs[0].0@ != w {
        assert forall|i: int| 0 <= i < trs.drop_first().len() implies (#[trigger] trs.drop_first()[
            i
        ]).1 < n by {
            assert(trs.drop_first()[i] == trs[i + 1]);
        }
        lemma_find_transition_in_range(trs.drop_first(), w, n);
    }
}

/// The state reached from `state` on entering `w`: the first matching
/// transition's target, or the default state when no transition matches.
pub open spec fn next_state_spec(m: LanguageModel, state: int, w: Seq<char>) -> int
    recommends 0 <= state < m.states@.len(),
{
    match find_transition(m.states@[state].transitions@, w) {
        Some(t) => t as int,
        None => 0,
    }
}

/// The ranked candidate list predicted at `state`, cut to at most `limit`
/// entries.
pub open spec fn predictions_spec(m: LanguageModel, state: int, limit: int) -> Seq<
    (Seq<char>, u64),
>
    recommends 0 <= state < m.states@.len(),
{
    let preds = m.states@[state].predictions@;
    cands_view(if limit < preds.len() { preds.take(limit) } else { preds })
}

impl LanguageModel {
    /// The model's own well-formedness.
    pub open spec fn valid(self) -> bool {
        model_data_valid(self.states@)
    }

    /// Number of states of the table.
    pub open spec fn n_states(self) -> int {
        self.states@.len() as int
    }

    /// Build a model from its backing table, validating it.
    ///
    /// Fails with the distinct `LoadError` of the first failing check when
    /// the data is malformed.
    pub fn new(states: Vec<LmStateData>) -> (r: Result<LanguageModel, LoadError>)
        ensures
            match r {
                Ok(m) => m.states@ == states@ && m.valid() && load_error_spec(states@) is None,
                Err(e) => load_error_spec(states@) == Some(e),
            },
    {
        let n = states.len();
        if n == 0 {
            return Err(LoadError::NoStates);
        }
        let mut i: usize = 0;
        while i < n
            invariant
                0 <= i <= n == states@.len(),
                forall|k: int|
                    0 <= k < i ==> transitions_in_range(
                        (#[trigger] states@[k]).transitions@,
                        n as int,
                    ),
            decreases n - i,
        {
            let trs = &states[i].transitions;
            let m = trs.len();
            let mut j: usize = 0;
            while j < m
                invariant
                    0 <= j <= m == trs@.len(),
                    0 <= i < n == states@.len(),
                    trs@ == states@[i as int].transitions@,
                    forall|k: int| 0 <= k < j ==> (#[trigger] trs@[k]).1 < n,
                decreases m - j,
            {
                if trs[j].1 >= n {
                    proof {
                        if all_transitions_ok(states@) {
                            assert(transitions_in_range(
                                states@[i as int].transitions@,
                                states@.len() as int,
                            ));
                            assert(trs@[j as int].1 < states@.len());
                            assert(false);
                        }
                    }
                    return Err(LoadError::TransitionTargetOutOfRange);
                }
                j = j + 1;
            }
            i = i + 1;
        }
        let mut i: usize = 0;
        while i < n
            invariant
                0 <= i <= n == states@.len(),
                all_transitions_ok(states@),
                forall|k: int| 0 <= k < i ==> preds_descending((#[trigger] states@[k]).predictions@),
            decreases n - i,
        {
            let preds = &states[i].predictions;
            let m = preds.len();
            let mut j: usize = 1;
            while j < m
                invariant
                    1 <= j <= m == preds@.len() || (m == 0 && j == 1),
                    0 <= i < n == states@.len(),
                    preds@ == states@[i as int].predictions@,
                    all_transitions_ok(states@),
                    forall|k: int| 0 <= k < j - 1 ==> (#[trigger] preds@[k]).1 >= preds@[k + 1].1,
                decreases m - j,
            {
                if preds[j - 1].1 < preds[j].1 {
                    proof {
                        if all_preds_descending(states@) {
                            assert(preds_descending(states@[i as int].predictions@));
                            assert(preds@[j - 1].1 >= preds@[j - 1 + 1].1);
                            assert(false);
                        }
                    }
                    return Err(LoadError::PredictionsNotDescending);
                }
                j = j + 1;
            }
            i = i + 1;
        }
        let mut i: usize = 0;
        while i < n
            invariant
                0 <= i <= n == states@.len(),
                all_transitions_ok(states@),
                all_preds_descending(states@),
                forall|k: int| 0 <= k < i ==> preds_unique((#[trigger] states@[k]).predictions@),
            decreases n - i,
        {
            let preds = &states[i].predictions;
            let m = preds.len();
            let mut j: usize = 0;
            while j < m
                invariant
                    0 <= j <= m == preds@.len(),
                    0 <= i < n == states@.len(),
                    preds@ == states@[i as int].predictions@,
                    all_transitions_ok(states@),
                    all_preds_descending(states@),
                    forall|a: int, b: int|
                        0 <= a < b < preds@.len() && a < j ==> (#[trigger] preds@[a]).0@ != (
                        #[trigger] preds@[b]).0@,
                decreases m - j,
            {
                let mut k: usize = j + 1;
                while k < m
                    invariant
                        j < k <= m == preds@.len(),
                        j < m,
                        0 <= i < n == states@.len(),
                        preds@ == states@[i as int].predictions@,
                        all_transitions_ok(states@),
                        all_preds_descending(states@),
                        forall|b: int| j < b < k ==> (#[trigger] preds@[b]).0@ != preds@[j as int].0@,
                    decreases m - k,
                {
                    if preds[j].0 == preds[k].0 {
                        proof {
                            if all_preds_unique(states@) {
                                assert(preds_unique(states@[i as int].predictions@));
                                assert(preds@[j as int].0@ != preds@[k as int].0@);
                                assert(false);
                            }
                        }
                        return Err(LoadError::DuplicatePredictionWord);
                    }
                    k = k + 1;
                }
                j = j + 1;
            }
            i = i + 1;
        }
        Ok(LanguageModel { states })
    }

    /// The state reached from `state` on entering `word`: the first
    /// matching transition's target, or the default state `0`.
    pub fn get_next_state(&self, state: usize, word: &String) -> (r: usize)
        requires
            self.valid(),
            state < self.states@.len(),
        ensures
            r == next_state_spec(*self, state as int, word@),
            r < self.states@.len(),
    {
        let trs = &self.states[state].transitions;
        let n = trs.len();
        let mut i: usize = 0;
        while i < n
            invariant
                0 <= i <= n == trs@.len(),
                trs@ == self.states@[state as int].transitions@,
                transitions_in_range(trs@, self.states@.len() as int),
                forall|j: int| 0 <= j < i ==> (#[trigger] trs@[j]).0@ != word@,
            decreases n - i,
        {
            if trs[i].0 == *word {
                proof {
                    lemma_find_transition_skip(trs@, word@, i as int);
                    assert(trs@.skip(i as int)[0] == trs@[i as int]);
                }
                return trs[i].1;
            }
            i = i + 1;
        }
        proof {
            lemma_find_transition_skip(trs@, word@, n as int);
            assert(trs@.skip(n as int).len() == 0);
        }
        0
    }

    /// The ranked candidate list at `state`, cut to at most `limit` entries.
    pub fn predict(&self, state: usize, limit: usize) -> (r: Vec<(String, u64)>)
        requires
            self.valid(),
            state < self.states@.len(),
        ensures
            cands_view(r@) == predictions_spec(*self, state as int, limit as int),
            r@.len() <= limit,
    {
        let preds = &self.states[state].predictions;
        let n = preds.len();
        let take = if limit < n { limit } else { n };
        let mut out: Vec<(String, u64)> = Vec::new();
        let mut i: usize = 0;
        while i < take
            invariant
                0 <= i <= take <= n == preds@.len(),
                take == if limit < n { limit as int } else { n as int },
                preds@ == self.states@[state as int].predictions@,
                out@.len() == i,
                forall|j: int| 0 <= j < i ==> cand_view(#[trigger] out@[j]) == cand_view(preds@[j]),
            decreases take - i,
        {
            let w = preds[i].0.clone();
            let p = preds[i].1;
            out.push((w, p));
            i = i + 1;
        }
        proof {
            let target = predictions_spec(*self, state as int, limit as int);
            assert(cands_view(out@) =~= target);
        }
        out
    }
}

} // verus!
