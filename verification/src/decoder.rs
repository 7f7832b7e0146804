//! The input decoder: context tracking, prediction caching, and the
//! shape-similarity search.
//!
//! `entered_word` and `reset` advance or clear the rolling word context;
//! `get_predictions` memoizes the ranked candidate list of the current
//! context; `find_similar_words` ranks candidate words by the windowed
//! DTW distance between their synthesized ideal paths and the drawn query
//! path, pruning candidates by a cheap endpoint lower bound and keeping a
//! fixed-size sorted shortlist.
//!
//! Shape distances are compared raw: comparability across words of
//! different lengths comes from resampling every ideal path at the
//! query's own point density, with no additional length-ratio scaling,
//! which would correct for the same effect twice.

use vstd::prelude::*;

use crate::dtw::{dtw, dtw_spec, DIST_INF};
use crate::geom::{
    density_spec,
    desired_point_density,
    dist_points,
    dist_spec,
    point_valid,
    points_valid,
    Point,
    SCALE,
};
use crate::layout::{first_last_spec, ideal_path_spec, KeyLayout, MAX_PATH_POINTS};
use crate::lm::{cand_view, cands_view, next_state_spec, predictions_spec, LanguageModel};
use crate::order::{is_permutation, make_candidate_order};
use crate::text::{lower_seq, to_lowercase};
use crate::topk::{insert_into_k_bsf, insert_spec, sorted_by_dist};

verus! {

/// Number of entries the shortlist always holds.
pub const SHORTLIST_LEN: usize = 10;

/// Number of words the rolling context keeps.
pub const HISTORY_LEN: usize = 3;

/// Why a query could not be searched.
#[derive(Clone, Copy, PartialEq, Eq, Structural, Debug)]
pub enum InputError {
    /// The query path holds no point at all.
    EmptyQueryPath,
    /// Some query point lies outside the layout square.
    PointOutOfRange,
    /// The query path holds more points than a search can take.
    QueryTooLong,
}

/// The error a query is rejected with, or `None` when it can be searched.
pub open spec fn input_error_spec(q: Seq<Point>) -> Option<InputError> {
    if q.len() == 0 {
        Some(InputError::EmptyQueryPath)
    } else if !points_valid(q) {
        Some(InputError::PointOutOfRange)
    } else if q.len() > MAX_PATH_POINTS {
        Some(InputError::QueryTooLong)
    } else {
        None
    }
}

/// The context state reached by entering the words in order, starting
/// from the default state.
pub open spec fn fold_state(m: LanguageModel, words: Seq<Seq<char>>) -> int
    decreases words.len(),
{
    if words.len() == 0 {
        0
    } else {
        next_state_spec(m, fold_state(m, words.drop_last()), words.last())
    }
}

/// The word history after one more entered word: append it, evicting the
/// oldest entry when the history is full.
pub open spec fn push_history(h: Seq<Seq<char>>, w: Seq<char>) -> Seq<Seq<char>> {
    if h.len() < HISTORY_LEN {
        h.push(w)
    } else {
        h.drop_first().push(w)
    }
}

/// The word history, viewed as character sequences.
pub open spec fn history_view(h: Seq<String>) -> Seq<Seq<char>> {
    h.map_values(|w: String| w@)
}

/// The shortlist before any candidate was offered: sentinel entries with
/// an empty word and an unbeatable distance.
pub open spec fn sentinel_list() -> Seq<(Seq<char>, u64)> {
    Seq::new(SHORTLIST_LEN as nat, |i: int| (Seq::<char>::empty(), DIST_INF))
}

/// Half-width of the DTW band for a query of `qlen` points: a tenth of
/// the query length, rounded to the nearest integer.
pub open spec fn band_width_spec(qlen: int) -> int {
    (qlen + 5) / 10
}

/// Offering one candidate word to the shortlist: skip it when its first
/// or last key is unknown, when its endpoint lower bound already exceeds
/// the worst retained distance, or when no ideal path can be built; else
/// score it by windowed DTW and offer the scored word to the shortlist.
pub open spec fn search_step(
    keys: Seq<(char, Point)>,
    q: Seq<Point>,
    density: int,
    w: int,
    acc: Seq<(Seq<char>, u64)>,
    word: Seq<char>,
) -> Seq<(Seq<char>, u64)>
    recommends q.len() >= 1, acc.len() >= 1,
{
    let bsf = acc.last().1;
    match first_last_spec(keys, word) {
        None => acc,
        Some((f, l)) => {
            let lb = dist_spec(f, q[0]) + dist_spec(l, q.last());
            if lb > bsf {
                acc
            } else {
                match ideal_path_spec(keys, word, density) {
                    None => acc,
                    Some(p) => {
                        let d = dtw_spec(p, q, w);
                        if d < bsf {
                            insert_spec(acc, (word, d as u64))
                        } else {
                            acc
                        }
                    },
                }
            }
        },
    }
}

/// The shortlist after offering the first `t` candidates of the fixed
/// evaluation order, starting from the sentinel list.
pub open spec fn search_fold(
    keys: Seq<(char, Point)>,
    q: Seq<Point>,
    density: int,
    w: int,
    cands: Seq<(Seq<char>, u64)>,
    ord: Seq<usize>,
    t: int,
) -> Seq<(Seq<char>, u64)>
    decreases t,
{
    if t <= 0 {
        sentinel_list()
    } else {
        let prev = search_fold(keys, q, density, w, cands, ord, t - 1);
        let idx = ord[t - 1] as int;
        if idx < cands.len() {
            search_step(keys, q, density, w, prev, cands[idx].0)
        } else {
            prev
        }
    }
}

/// Offering one candidate word without the endpoint lower-bound check:
/// every word with an ideal path is scored by windowed DTW.
pub open spec fn exhaustive_step(
    keys: Seq<(char, Point)>,
    q: Seq<Point>,
    density: int,
    w: int,
    acc: Seq<(Seq<char>, u64)>,
    word: Seq<char>,
) -> Seq<(Seq<char>, u64)>
    recommends q.len() >= 1, acc.len() >= 1,
{
    match ideal_path_spec(keys, word, density) {
        None => acc,
        Some(p) => {
            let d = dtw_spec(p, q, w);
            if d < acc.last().1 {
                insert_spec(acc, (word, d as u64))
            } else {
                acc
            }
        },
    }
}

/// The shortlist after offering the first `t` candidates without the
/// endpoint lower-bound check.
pub open spec fn exhaustive_fold(
    keys: Seq<(char, Point)>,
    q: Seq<Point>,
    density: int,
    w: int,
    cands: Seq<(Seq<char>, u64)>,
    ord: Seq<usize>,
    t: int,
) -> Seq<(Seq<char>, u64)>
    decreases t,
{
    if t <= 0 {
        sentinel_list()
    } else {
        let prev = exhaustive_fold(keys, q, density, w, cands, ord, t - 1);
        let idx = ord[t - 1] as int;
        if idx < cands.len() {
            exhaustive_step(keys, q, density, w, prev, cands[idx].0)
        } else {
            prev
        }
    }
}

/// The shortlist an exhaustive (unpruned) search returns for a query.
pub open spec fn exhaustive_search_spec(d: InputDecoder, q: Seq<Point>) -> Seq<(Seq<char>, u64)> {
    exhaustive_fold(
        d.key_layout.keys@,
        q,
        density_spec(q),
        band_width_spec(q.len() as int),
        predictions_spec(d.language_model, d.lm_state as int, d.max_no_predictions as int),
        d.candidate_order@,
        d.candidate_order@.len() as int,
    )
}

/// The shortlist the decoder returns for a query: the whole candidate
/// list of the current context, offered in the fixed evaluation order.
pub open spec fn search_spec(d: InputDecoder, q: Seq<Point>) -> Seq<(Seq<char>, u64)> {
    search_fold(
        d.key_layout.keys@,
        q,
        density_spec(q),
        band_width_spec(q.len() as int),
        predictions_spec(d.language_model, d.lm_state as int, d.max_no_predictions as int),
        d.candidate_order@,
        d.candidate_order@.len() as int,
    )
}

/// The decoder: the language model and key layout it was built with, the
/// rolling context, the memoized prediction snapshot, and the fixed
/// candidate evaluation order.
pub struct InputDecoder {
    pub max_no_predictions: usize,
    pub language_model: LanguageModel,
    pub lm_state: usize,
    pub key_layout: KeyLayout,
    pub word_history: Vec<String>,
    pub prediction_cache: Option<Vec<(String, u64)>>,
    pub candidate_order: Vec<usize>,
}

impl InputDecoder {
    /// The decoder's invariant: model and layout are valid, the context
    /// state is the fold of the word history, any cached snapshot is the
    /// candidate list of the current context, and the evaluation order is
    /// a fixed permutation of the candidate indices.
    pub open spec fn wf(self) -> bool {
        &&& self.language_model.valid()
        &&& self.key_layout.valid()
        &&& 0 <= self.lm_state < self.language_model.n_states()
        &&& self.word_history@.len() <= HISTORY_LEN
        &&& self.lm_state == fold_state(self.language_model, history_view(self.word_history@))
        &&& match self.prediction_cache {
            Some(v) => cands_view(v@) == predictions_spec(
                self.language_model,
                self.lm_state as int,
                self.max_no_predictions as int,
            ),
            None => true,
        }
        &&& is_permutation(self.candidate_order@, self.max_no_predictions as int)
    }

    /// Build a decoder over a validated model and layout.  It starts in
    /// the default context with an empty history and no cached snapshot.
    pub fn new(
        language_model: LanguageModel,
        key_layout: KeyLayout,
        max_no_predictions: usize,
    ) -> (r: InputDecoder)
        requires
            language_model.valid(),
            key_layout.valid(),
        ensures
            r.wf(),
            r.language_model == language_model,
            r.key_layout == key_layout,
            r.max_no_predictions == max_no_predictions,
            r.lm_state == 0,
            r.word_history@.len() == 0,
            r.prediction_cache is None,
    {
        let candidate_order = make_candidate_order(max_no_predictions);
        let r = InputDecoder {
            max_no_predictions,
            language_model,
            lm_state: 0,
            key_layout,
            word_history: Vec::new(),
            prediction_cache: None,
            candidate_order,
        };
        proof {
            assert(history_view(r.word_history@) =~= Seq::<Seq<char>>::empty());
        }
        r
    }

    /// Return to the initial state: default context, empty history, and
    /// no cached snapshot.  The model, layout and evaluation order are
    /// kept.
    pub fn reset(&mut self)
        requires
            old(self).wf(),
        ensures
            final(self).wf(),
            final(self).lm_state == 0,
            final(self).word_history@.len() == 0,
            final(self).prediction_cache is None,
            final(self).language_model == old(self).language_model,
            final(self).key_layout == old(self).key_layout,
            final(self).max_no_predictions == old(self).max_no_predictions,
            final(self).candidate_order == old(self).candidate_order,
    {
        self.lm_state = 0;
        self.word_history = Vec::new();
        self.prediction_cache = None;
        proof {
            assert(history_view(self.word_history@) =~= Seq::<Seq<char>>::empty());
        }
    }

    /// Record one entered word: fold it to lowercase, append it to the
    /// history (evicting the oldest entry when the history is full),
    /// recompute the context state from the retained history, and drop
    /// any cached snapshot — entering a word always invalidates the
    /// cache, even when the predictions would coincide.
    pub fn entered_word(&mut self, word: &str)
        requires
            old(self).wf(),
        ensures
            final(self).wf(),
            history_view(final(self).word_history@) == push_history(
                history_view(old(self).word_history@),
                lower_seq(word@),
            ),
            final(self).lm_state == fold_state(
                final(self).language_model,
                history_view(final(self).word_history@),
            ),
            final(self).prediction_cache is None,
            final(self).language_model == old(self).language_model,
            final(self).key_layout == old(self).key_layout,
            final(self).max_no_predictions == old(self).max_no_predictions,
            final(self).candidate_order == old(self).candidate_order,
    {
        let lowered = to_lowercase(word);
        if self.word_history.len() >= HISTORY_LEN {
            self.word_history.remove(0);
        }
        self.word_history.push(lowered);
        proof {
            assert(history_view(self.word_history@) =~= push_history(
                history_view(old(self).word_history@),
                lower_seq(word@),
            ));
        }
        let n = self.word_history.len();
        let mut state: usize = 0;
        let mut i: usize = 0;
        proof {
            assert(history_view(self.word_history@).take(0int) =~= Seq::<Seq<char>>::empty());
        }
        while i < n
            invariant
                0 <= i <= n == self.word_history@.len(),
                self.language_model.valid(),
                0 <= state < self.language_model.n_states(),
                state == fold_state(
                    self.language_model,
                    history_view(self.word_history@).take(i as int),
                ),
            decreases n - i,
        {
            state = self.language_model.get_next_state(state, &self.word_history[i]);
            proof {
                let hv = history_view(self.word_history@);
                assert(hv.take(i + 1).drop_last() =~= hv.take(i as int));
                assert(hv.take(i + 1).last() == self.word_history@[i as int]@);
            }
            i = i + 1;
        }
        proof {
            let hv = history_view(self.word_history@);
            assert(hv.take(n as int) =~= hv);
        }
        self.lm_state = state;
        self.prediction_cache = None;
    }

    /// The ranked candidate list of the current context: the memoized
    /// snapshot when one is live, else freshly queried from the language
    /// model (up to `max_no_predictions` candidates) and memoized.
    pub fn get_predictions(&mut self) -> (r: Vec<(String, u64)>)
        requires
            old(self).wf(),
        ensures
            final(self).wf(),
            cands_view(r@) == predictions_spec(
                old(self).language_model,
                old(self).lm_state as int,
                old(self).max_no_predictions as int,
            ),
            final(self).prediction_cache matches Some(v) && cands_view(v@) == cands_view(r@),
            old(self).prediction_cache matches Some(v) ==> *final(self) == *old(self),
            final(self).language_model == old(self).language_model,
            final(self).lm_state == old(self).lm_state,
            final(self).key_layout == old(self).key_layout,
            final(self).max_no_predictions == old(self).max_no_predictions,
            final(self).word_history == old(self).word_history,
            final(self).candidate_order == old(self).candidate_order,
    {
        match &self.prediction_cache {
            Some(cached) => clone_candidates(cached),
            None => {
                let fresh = self.language_model.predict(self.lm_state, self.max_no_predictions);
                let snapshot = clone_candidates(&fresh);
                self.prediction_cache = Some(snapshot);
                fresh
            },
        }
    }

    /// Every candidate the language model can produce at the default
    /// state, with no limit; bypasses the context and the cache.
    pub fn get_all_words(&self) -> (r: Vec<(String, u64)>)
        requires
            self.wf(),
        ensures
            cands_view(r@) == cands_view(self.language_model.states@[0].predictions@),
    {
        let total = self.language_model.states[0].predictions.len();
        let r = self.language_model.predict(0, total);
        proof {
            assert(cands_view(r@) =~= cands_view(self.language_model.states@[0].predictions@));
        }
        r
    }

    /// Rank candidate words of the current context by how much their
    /// ideal paths resemble the drawn query path (see `search_spec`).
    /// The result always holds exactly `SHORTLIST_LEN` entries, ascending
    /// by distance, padded with sentinel entries when fewer candidates
    /// scored.  The decoder itself is untouched.
    pub fn find_similar_words(&self, query_path: &Vec<Point>) -> (r: Result<
        Vec<(String, u64)>,
        InputError,
    >)
        requires
            self.wf(),
        ensures
            match r {
                Ok(list) => {
                    &&& input_error_spec(query_path@) is None
                    &&& cands_view(list@) == search_spec(*self, query_path@)
                    &&& list@.len() == SHORTLIST_LEN
                    &&& sorted_by_dist(cands_view(list@))
                },
                Err(e) => input_error_spec(query_path@) == Some(e),
            },
    {
        let n = query_path.len();
        if n == 0 {
            return Err(InputError::EmptyQueryPath);
        }
        let mut i: usize = 0;
        while i < n
            invariant
                0 <= i <= n == query_path@.len(),
                forall|k: int| 0 <= k < i ==> point_valid(#[trigger] query_path@[k]),
            decreases n - i,
        {
            let p = query_path[i];
            if !(0 <= p.x && p.x <= SCALE && 0 <= p.y && p.y <= SCALE) {
                proof {
                    assert(!point_valid(query_path@[i as int]));
                }
                return Err(InputError::PointOutOfRange);
            }
            i = i + 1;
        }
        if n > MAX_PATH_POINTS {
            return Err(InputError::QueryTooLong);
        }

        let w: usize = (n + 5) / 10;
        let density = desired_point_density(query_path);
        let predictions = self.language_model.predict(self.lm_state, self.max_no_predictions);

        let mut k_best: Vec<(String, u64)> = Vec::new();
        let mut s: usize = 0;
        while s < SHORTLIST_LEN
            invariant
                0 <= s <= SHORTLIST_LEN,
                k_best@.len() == s,
                forall|k: int|
                    0 <= k < s ==> cand_view(#[trigger] k_best@[k]) == (Seq::<char>::empty(), DIST_INF),
            decreases SHORTLIST_LEN - s,
        {
            k_best.push((String::new(), DIST_INF));
            s = s + 1;
        }
        proof {
            assert(cands_view(k_best@) =~= sentinel_list());
        }

        let ghost q = query_path@;
        let ghost keys = self.key_layout.keys@;
        let ghost cands = predictions_spec(
            self.language_model,
            self.lm_state as int,
            self.max_no_predictions as int,
        );
        let ghost ord = self.candidate_order@;

        let total = self.candidate_order.len();
        let mut t: usize = 0;
        while t < total
            invariant
                0 <= t <= total == ord.len(),
                self.wf(),
                q == query_path@,
                keys == self.key_layout.keys@,
                ord == self.candidate_order@,
                cands == predictions_spec(
                    self.language_model,
                    self.lm_state as int,
                    self.max_no_predictions as int,
                ),
                cands_view(predictions@) == cands,
                predictions@.len() <= self.max_no_predictions,
                1 <= n == q.len() && q.len() <= MAX_PATH_POINTS,
                points_valid(q),
                w == band_width_spec(q.len() as int),
                w <= MAX_PATH_POINTS,
                density == density_spec(q),
                k_best@.len() == SHORTLIST_LEN,
                sorted_by_dist(cands_view(k_best@)),
                cands_view(k_best@) == search_fold(keys, q, density as int, w as int, cands, ord, t as int),
            decreases total - t,
        {
            let ghost prev = cands_view(k_best@);
            let idx = self.candidate_order[t];
            if idx < predictions.len() {
                let word = &predictions[idx].0;
                let ghost wv = cands[idx as int].0;
                proof {
                    assert(wv == predictions@[idx as int].0@);
                }
                match self.key_layout.first_last_points(word) {
                    Some((f, l)) => {
                        let bsf = k_best[SHORTLIST_LEN - 1].1;
                        proof {
                            assert(cands_view(k_best@)[SHORTLIST_LEN - 1] == cand_view(
                                k_best@[SHORTLIST_LEN - 1],
                            ));
                            assert(bsf == prev.last().1);
                            crate::layout::lemma_find_key_valid(keys, wv[0]);
                            crate::layout::lemma_find_key_valid(keys, wv.last());
                            assert(q.last() == q[n - 1]);
                        }
                        let lb = dist_points(f, query_path[0]) + dist_points(
                            l,
                            query_path[n - 1],
                        );
                        proof {
                            assert(lb == dist_spec(f, q[0]) + dist_spec(l, q.last()));
                        }
                        if lb <= bsf {
                            match self.key_layout.build_ideal_path(word, density) {
                                Some(cand_path) => {
                                    let d = dtw(&cand_path, query_path, w);
                                    proof {
                                        assert(ideal_path_spec(keys, wv, density as int)
                                            == Some(cand_path@));
                                        assert(d == dtw_spec(cand_path@, q, w as int));
                                    }
                                    if d < bsf {
                                        let scored = (word.clone(), d);
                                        let ghost sv = cand_view(scored);
                                        insert_into_k_bsf(scored, &mut k_best);
                                        proof {
                                            assert(sv == (wv, d));
                                            assert((dtw_spec(cand_path@, q, w as int) as u64) == d);
                                            assert(cands_view(k_best@) == insert_spec(
                                                prev,
                                                (wv, d),
                                            ));
                                        }
                                    }
                                },
                                None => {},
                            }
                        }
                    },
                    None => {},
                }
                proof {
                    assert(cands_view(k_best@) == search_step(
                        keys,
                        q,
                        density as int,
                        w as int,
                        prev,
                        wv,
                    ));
                }
            }
            proof {
                assert(cands_view(k_best@) == search_fold(
                    keys,
                    q,
                    density as int,
                    w as int,
                    cands,
                    ord,
                    t + 1,
                ));
            }
            t = t + 1;
        }
        Ok(k_best)
    }

    /// The reference search without the endpoint lower-bound pruning
    /// (see `exhaustive_search_spec`): every candidate with an ideal path
    /// is scored by windowed DTW.  The pruning heuristic of
    /// `find_similar_words` is checked against this search.
    pub fn find_similar_words_exhaustive(&self, query_path: &Vec<Point>) -> (r: Result<
        Vec<(String, u64)>,
        InputError,
    >)
        requires
            self.wf(),
        ensures
            match r {
                Ok(list) => {
                    &&& input_error_spec(query_path@) is None
                    &&& cands_view(list@) == exhaustive_search_spec(*self, query_path@)
                    &&& list@.len() == SHORTLIST_LEN
                    &&& sorted_by_dist(cands_view(list@))
                },
                Err(e) => input_error_spec(query_path@) == Some(e),
            },
    {
        let n = query_path.len();
        if n == 0 {
            return Err(InputError::EmptyQueryPath);
        }
        let mut i: usize = 0;
        while i < n
            invariant
                0 <= i <= n == query_path@.len(),
                forall|k: int| 0 <= k < i ==> point_valid(#[trigger] query_path@[k]),
            decreases n - i,
        {
            let p = query_path[i];
            if !(0 <= p.x && p.x <= SCALE && 0 <= p.y && p.y <= SCALE) {
                proof {
                    assert(!point_valid(query_path@[i as int]));
                }
                return Err(InputError::PointOutOfRange);
            }
            i = i + 1;
        }
        if n > MAX_PATH_POINTS {
            return Err(InputError::QueryTooLong);
        }

        let w: usize = (n + 5) / 10;
        let density = desired_point_density(query_path);
        let predictions = self.language_model.predict(self.lm_state, self.max_no_predictions);

        let mut k_best: Vec<(String, u64)> = Vec::new();
        let mut s: usize = 0;
        while s < SHORTLIST_LEN
            invariant
                0 <= s <= SHORTLIST_LEN,
                k_best@.len() == s,
                forall|k: int|
                    0 <= k < s ==> cand_view(#[trigger] k_best@[k]) == (Seq::<char>::empty(), DIST_INF),
            decreases SHORTLIST_LEN - s,
        {
            k_best.push((String::new(), DIST_INF));
            s = s + 1;
        }
        proof {
            assert(cands_view(k_best@) =~= sentinel_list());
        }

        let ghost q = query_path@;
        let ghost keys = self.key_layout.keys@;
        let ghost cands = predictions_spec(
            self.language_model,
            self.lm_state as int,
            self.max_no_predictions as int,
        );
        let ghost ord = self.candidate_order@;

        let total = self.candidate_order.len();
        let mut t: usize = 0;
        while t < total
            invariant
                0 <= t <= total == ord.len(),
                self.wf(),
                q == query_path@,
                keys == self.key_layout.keys@,
                ord == self.candidate_order@,
                cands == predictions_spec(
                    self.language_model,
                    self.lm_state as int,
                    self.max_no_predictions as int,
                ),
                cands_view(predictions@) == cands,
                predictions@.len() <= self.max_no_predictions,
                1 <= n == q.len() && q.len() <= MAX_PATH_POINTS,
                points_valid(q),
                w == band_width_spec(q.len() as int),
                w <= MAX_PATH_POINTS,
                density == density_spec(q),
                k_best@.len() == SHORTLIST_LEN,
                sorted_by_dist(cands_view(k_best@)),
                cands_view(k_best@) == exhaustive_fold(keys, q, density as int, w as int, cands, ord, t as int),
            decreases total - t,
        {
            let ghost prev = cands_view(k_best@);
            let idx = self.candidate_order[t];
            if idx < predictions.len() {
                let word = &predictions[idx].0;
                let ghost wv = cands[idx as int].0;
                proof {
                    assert(wv == predictions@[idx as int].0@);
                }
                let bsf = k_best[SHORTLIST_LEN - 1].1;
                proof {
                    assert(cands_view(k_best@)[SHORTLIST_LEN - 1] == cand_view(
                        k_best@[SHORTLIST_LEN - 1],
                    ));
                    assert(bsf == prev.last().1);
                }
                match self.key_layout.build_ideal_path(word, density) {
                    Some(cand_path) => {
                        let d = dtw(&cand_path, query_path, w);
                        proof {
                            assert(ideal_path_spec(keys, wv, density as int) == Some(cand_path@));
                            assert(d == dtw_spec(cand_path@, q, w as int));
                        }
                        if d < bsf {
                            let scored = (word.clone(), d);
                            let ghost sv = cand_view(scored);
                            insert_into_k_bsf(scored, &mut k_best);
                            proof {
                                assert(sv == (wv, d));
                                assert((dtw_spec(cand_path@, q, w as int) as u64) == d);
                                assert(cands_view(k_best@) == insert_spec(prev, (wv, d)));
                            }
                        }
                    },
                    None => {},
                }
                proof {
                    assert(cands_view(k_best@) == exhaustive_step(
                        keys,
                        q,
                        density as int,
                        w as int,
                        prev,
                        wv,
                    ));
                }
            }
            proof {
                assert(cands_view(k_best@) == exhaustive_fold(
                    keys,
                    q,
                    density as int,
                    w as int,
                    cands,
                    ord,
                    t + 1,
                ));
            }
            t = t + 1;
        }
        Ok(k_best)
    }
}

/// A fresh copy of a candidate list, entry by entry.
fn clone_candidates(v: &Vec<(String, u64)>) -> (r: Vec<(String, u64)>)
    ensures
        r@ == v@,
{
    let n = v.len();
    let mut out: Vec<(String, u64)> = Vec::new();
    let mut i: usize = 0;
    while i < n
        invariant
            0 <= i <= n == v@.len(),
            out@.len() == i,
            forall|j: int| 0 <= j < i ==> #[trigger] out@[j] == v@[j],
        decreases n - i,
    {
        let word = v[i].0.clone();
        let p = v[i].1;
        out.push((word, p));
        i = i + 1;
    }
    proof {
        assert(out@ =~= v@);
    }
    out
}

} // verus!
