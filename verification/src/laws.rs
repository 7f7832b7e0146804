//! Cross-function laws of the decoder, stated and proved once.
//!
//! Each law here relates several operations of the library; laws that
//! concern a single call stand in that function's own contract.

use vstd::prelude::*;

use crate::decoder::{
    exhaustive_fold,
    exhaustive_search_spec,
    exhaustive_step,
    fold_state,
    push_history,
    search_fold,
    search_spec,
    search_step,
    InputDecoder,
};
use crate::dtw::dtw_spec;
use crate::geom::{dist_spec, Point};
use crate::layout::{
    centers_spec,
    find_key,
    first_last_spec,
    ideal_path_spec,
    lemma_centers_prefix_none,
};
use crate::lm::{cands_view, predictions_spec, LanguageModel};
use crate::topk::{insert_pos, insert_spec, sorted_by_dist};

verus! {

/// Law: `reset` restores the predictions of a freshly built decoder.
///
/// Any two well-formed decoders over the same language model and
/// prediction limit whose context state is the default state — as it is
/// right after `reset`, and right after construction — predict exactly
/// the same candidate list, whatever words were entered before.
pub proof fn lemma_reset_restores_fresh_predictions(a: InputDecoder, b: InputDecoder)
    requires
        a.wf(),
        b.wf(),
        a.language_model == b.language_model,
        a.max_no_predictions == b.max_no_predictions,
        a.lm_state == 0,
        b.lm_state == 0,
    ensures
        predictions_spec(a.language_model, a.lm_state as int, a.max_no_predictions as int)
            == predictions_spec(b.language_model, b.lm_state as int, b.max_no_predictions as int),
{
}

/// Law: a live prediction snapshot is the candidate list of the current
/// context.
///
/// `get_predictions` answers from the snapshot without asking the
/// language model again, and this law says doing so is sound: whenever a
/// well-formed decoder holds a snapshot, that snapshot equals what a
/// fresh query at the current context would return.
pub proof fn lemma_cached_predictions_current(d: InputDecoder)
    requires
        d.wf(),
        d.prediction_cache is Some,
    ensures
        d.prediction_cache matches Some(v) && cands_view(v@) == predictions_spec(
            d.language_model,
            d.lm_state as int,
            d.max_no_predictions as int,
        ),
{
}

/// Law: only the last three entered words influence the context state.
///
/// Entering four words leaves exactly the history — and therefore the
/// context state — of a fresh decoder fed only the last three of them.
pub proof fn lemma_history_window(
    m: LanguageModel,
    w1: Seq<char>,
    w2: Seq<char>,
    w3: Seq<char>,
    w4: Seq<char>,
)
    ensures
        ({
            let h4 = push_history(
                push_history(push_history(push_history(Seq::<Seq<char>>::empty(), w1), w2), w3),
                w4,
            );
            let h3 = push_history(push_history(push_history(Seq::<Seq<char>>::empty(), w2), w3), w4);
            h4 == h3 && fold_state(m, h4) == fold_state(m, h3)
        }),
{
    let h4 = push_history(
        push_history(push_history(push_history(Seq::<Seq<char>>::empty(), w1), w2), w3),
        w4,
    );
    let h3 = push_history(push_history(push_history(Seq::<Seq<char>>::empty(), w2), w3), w4);
    assert(h4 =~~= seq![w2, w3, w4]);
    assert(h3 =~~= seq![w2, w3, w4]);
}

/// Law: ties in the shortlist keep the order in which the candidates
/// were evaluated.
///
/// A scored word that beats the worst retained entry lands after every
/// entry at most as distant — so an earlier candidate with the same
/// distance stays ahead of a later one — and everything around it is
/// kept as it was, never re-sorted.
pub proof fn lemma_shortlist_tie_stability(s: Seq<(Seq<char>, u64)>, c: (Seq<char>, u64))
    requires
        sorted_by_dist(s),
        s.len() >= 1,
        c.1 < s.last().1,
    ensures
        ({
            let p = insert_pos(s, c.1);
            let r = insert_spec(s, c);
            &&& 0 <= p < s.len()
            &&& r[p] == c
            &&& forall|j: int| 0 <= j < p ==> r[j] == s[j] && (#[trigger] s[j]).1 <= c.1
            &&& forall|j: int| p < j < r.len() ==> r[j] == s[j - 1]
        }),
{
    crate::topk::lemma_insert_pos_range(s, c.1);
    let p = insert_pos(s, c.1);
    if p == s.len() {
        assert(s[s.len() - 1].1 <= c.1);
    }
}

/// A word whose first or last key is unknown has no ideal path either.
pub proof fn lemma_no_endpoints_no_path(keys: Seq<(char, Point)>, w: Seq<char>, density: int)
    requires
        first_last_spec(keys, w) is None,
    ensures
        ideal_path_spec(keys, w, density) is None,
{
    if w.len() > 0 {
        if find_key(keys, w[0]) is None {
            assert(centers_spec(keys, w.take(1)) is None) by {
                assert(w.take(1).drop_last() =~= Seq::<char>::empty());
                assert(w.take(1).last() == w[0]);
            }
            lemma_centers_prefix_none(keys, w, 1);
        }
    }
}

/// The endpoint lower bound is admissible for a word: whenever the word
/// has endpoints and an ideal path, the sum of its endpoint distances to
/// the query's endpoints does not exceed its windowed DTW distance.
///
/// This is the heuristic assumption behind the pruning of
/// `find_similar_words`; it is not proven from the geometry, and the
/// pruning law below holds exactly under it.
pub open spec fn lb_admissible(
    keys: Seq<(char, Point)>,
    q: Seq<Point>,
    density: int,
    w: int,
    word: Seq<char>,
) -> bool {
    match (first_last_spec(keys, word), ideal_path_spec(keys, word, density)) {
        (Some((f, l)), Some(p)) => dist_spec(f, q[0]) + dist_spec(l, q.last()) <= dtw_spec(
            p,
            q,
            w,
        ),
        _ => true,
    }
}

/// Offering one admissible candidate with or without the lower-bound
/// check leaves the same shortlist.
pub proof fn lemma_pruned_step_exact(
    keys: Seq<(char, Point)>,
    q: Seq<Point>,
    density: int,
    w: int,
    acc: Seq<(Seq<char>, u64)>,
    word: Seq<char>,
)
    requires
        lb_admissible(keys, q, density, w, word),
    ensures
        search_step(keys, q, density, w, acc, word) == exhaustive_step(
            keys,
            q,
            density,
            w,
            acc,
            word,
        ),
{
    match first_last_spec(keys, word) {
        None => {
            lemma_no_endpoints_no_path(keys, word, density);
        },
        Some((f, l)) => {
            let bsf = acc.last().1;
            let lb = dist_spec(f, q[0]) + dist_spec(l, q.last());
            if lb > bsf {
                match ideal_path_spec(keys, word, density) {
                    None => {},
                    Some(p) => {
                        assert(dtw_spec(p, q, w) >= lb);
                    },
                }
            }
        },
    }
}

/// Law: endpoint lower-bound pruning never changes the shortlist — in
/// particular not the identity of the best match — versus the exhaustive
/// search over the same candidates, density and band, provided the lower
/// bound is admissible for every candidate.  The admissibility premise is
/// the heuristic assumption; pruning affects speed only, never the found
/// minimum, wherever it holds.
pub proof fn lemma_pruning_preserves_shortlist(
    keys: Seq<(char, Point)>,
    q: Seq<Point>,
    density: int,
    w: int,
    cands: Seq<(Seq<char>, u64)>,
    ord: Seq<usize>,
    t: int,
)
    requires
        0 <= t,
        forall|i: int|
            0 <= i < cands.len() ==> lb_admissible(keys, q, density, w, (#[trigger] cands[i]).0),
    ensures
        search_fold(keys, q, density, w, cands, ord, t) == exhaustive_fold(
            keys,
            q,
            density,
            w,
            cands,
            ord,
            t,
        ),
    decreases t,
{
    if t > 0 {
        lemma_pruning_preserves_shortlist(keys, q, density, w, cands, ord, t - 1);
        let prev = search_fold(keys, q, density, w, cands, ord, t - 1);
        let idx = ord[t - 1] as int;
        if idx < cands.len() {
            lemma_pruned_step_exact(keys, q, density, w, prev, cands[idx].0);
        }
    }
}

/// Law: under the admissibility premise, `find_similar_words` returns
/// exactly the shortlist of `find_similar_words_exhaustive` for the same
/// decoder and query.
pub proof fn lemma_pruning_preserves_search(d: InputDecoder, q: Seq<Point>)
    requires
        forall|i: int|
            0 <= i < predictions_spec(
                d.language_model,
                d.lm_state as int,
                d.max_no_predictions as int,
            ).len() ==> lb_admissible(
                d.key_layout.keys@,
                q,
                crate::geom::density_spec(q),
                crate::decoder::band_width_spec(q.len() as int),
                (#[trigger] predictions_spec(
                    d.language_model,
                    d.lm_state as int,
                    d.max_no_predictions as int,
                )[i]).0,
            ),
    ensures
        search_spec(d, q) == exhaustive_search_spec(d, q),
{
    lemma_pruning_preserves_shortlist(
        d.key_layout.keys@,
        q,
        crate::geom::density_spec(q),
        crate::decoder::band_width_spec(q.len() as int),
        predictions_spec(d.language_model, d.lm_state as int, d.max_no_predictions as int),
        d.candidate_order@,
        d.candidate_order@.len() as int,
    );
}

} // verus!
