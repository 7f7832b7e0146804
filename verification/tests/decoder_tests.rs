use input_decoder::decoder::SHORTLIST_LEN;
use input_decoder::dtw::{dtw, DIST_INF};
use input_decoder::geom::{desired_point_density, dist_points, isqrt, path_length, Point};
use input_decoder::layout::KeyLayout;
use input_decoder::lm::LmStateData;
use input_decoder::order::make_candidate_order;
use input_decoder::text::to_lowercase;
use input_decoder::topk::insert_into_k_bsf;
use input_decoder::{InputDecoder, InputError, LanguageModel, LoadError};

fn pt(x: i64, y: i64) -> Point {
    Point { x, y }
}

/// The toy four-state language model over the vocabulary {"a", "b"}:
/// from the default state, "a" leads to a state predicting ["b", "a"],
/// and "b", "b" leads to a state predicting ["a", "b"].
fn toy_model() -> LanguageModel {
    let states = vec![
        LmStateData {
            transitions: vec![("a".to_string(), 1), ("b".to_string(), 2)],
            predictions: vec![("a".to_string(), 60), ("b".to_string(), 40)],
        },
        LmStateData {
            transitions: vec![],
            predictions: vec![("b".to_string(), 70), ("a".to_string(), 30)],
        },
        LmStateData {
            transitions: vec![("b".to_string(), 3)],
            predictions: vec![("a".to_string(), 50), ("b".to_string(), 50)],
        },
        LmStateData {
            transitions: vec![],
            predictions: vec![("a".to_string(), 55), ("b".to_string(), 45)],
        },
    ];
    LanguageModel::new(states).unwrap()
}

/// The two-key layout of the similarity scenarios: "a" centered at
/// (0.100, 0.15) and "b" at (0.550, 0.25), in millionths.
fn toy_layout() -> KeyLayout {
    KeyLayout::new(vec![('a', pt(100_000, 150_000)), ('b', pt(550_000, 250_000))]).unwrap()
}

fn words_of(preds: &[(String, u64)]) -> Vec<String> {
    preds.iter().map(|(w, _)| w.clone()).collect()
}

#[test]
fn test_load_model() {
    let key_layout = toy_layout();
    let max_no_predictions = 2;
    InputDecoder::new(toy_model(), key_layout, max_no_predictions);
}

#[test]
fn test_get_predictions() {
    let key_layout = toy_layout();
    let max_no_predictions = 2;
    let mut input_decoder = InputDecoder::new(toy_model(), key_layout, max_no_predictions);

    // Go to state 3
    input_decoder.entered_word("b");
    input_decoder.entered_word("b");
    let predictions = words_of(&input_decoder.get_predictions());
    let correct_predictions = vec!["a", "b"];

    assert!(predictions == correct_predictions);

    // Reset and go to state 1
    input_decoder.reset();
    input_decoder.entered_word("a");
    let predictions = words_of(&input_decoder.get_predictions());
    let correct_predictions = vec!["b", "a"];
    assert!(predictions == correct_predictions);
}

#[test]
fn test_get_similar_word() {
    let key_layout = toy_layout();
    let max_no_predictions = 2;
    let input_decoder = InputDecoder::new(toy_model(), key_layout, max_no_predictions);

    // Get similar word (input is exactly the center of the "a" key)
    let query_path = vec![pt(100_000, 150_000)];
    let similar_word = input_decoder.find_similar_words(&query_path).unwrap();
    assert!(similar_word[0].0 == "a".to_string());

    // Get similar word (input is exactly the center of the "b" key)
    let query_path = vec![pt(550_000, 250_000)];
    let similar_word = input_decoder.find_similar_words(&query_path).unwrap();
    assert!(similar_word[0].0 == "b".to_string());

    // Get similar word (input is close to the center of the "b" key)
    let query_path = vec![pt(500_000, 252_000)];
    let similar_word = input_decoder.find_similar_words(&query_path).unwrap();
    assert!(similar_word[0].0 == "b".to_string());
}

#[test]
fn test_similar_word_exact_distances() {
    let input_decoder = InputDecoder::new(toy_model(), toy_layout(), 2);
    let query_path = vec![pt(100_000, 150_000)];
    let shortlist = input_decoder.find_similar_words(&query_path).unwrap();
    assert_eq!(shortlist.len(), SHORTLIST_LEN);
    assert_eq!(shortlist[0], ("a".to_string(), 0));
    // isqrt(450_000^2 + 100_000^2) = 460_977
    assert_eq!(shortlist[1], ("b".to_string(), 460_977));
    for entry in &shortlist[2..] {
        assert_eq!(*entry, (String::new(), u64::MAX));
    }
}

#[test]
fn test_reset_restores_fresh_predictions() {
    let mut seasoned = InputDecoder::new(toy_model(), toy_layout(), 2);
    seasoned.entered_word("a");
    seasoned.entered_word("b");
    seasoned.entered_word("b");
    seasoned.reset();
    let mut fresh = InputDecoder::new(toy_model(), toy_layout(), 2);
    assert_eq!(seasoned.get_predictions(), fresh.get_predictions());
}

#[test]
fn test_predictions_cached_and_idempotent() {
    let mut decoder = InputDecoder::new(toy_model(), toy_layout(), 2);
    decoder.entered_word("a");
    assert!(decoder.prediction_cache.is_none());
    let first = decoder.get_predictions();
    assert!(decoder.prediction_cache.is_some());
    let second = decoder.get_predictions();
    assert_eq!(first, second);
}

#[test]
fn test_entered_word_invalidates_cache() {
    let mut decoder = InputDecoder::new(toy_model(), toy_layout(), 2);
    let before = words_of(&decoder.get_predictions());
    assert!(decoder.prediction_cache.is_some());
    decoder.entered_word("a");
    assert!(decoder.prediction_cache.is_none());
    let after = words_of(&decoder.get_predictions());
    assert_eq!(before, vec!["a", "b"]);
    assert_eq!(after, vec!["b", "a"]);
}

#[test]
fn test_entered_word_lowercases() {
    let mut upper = InputDecoder::new(toy_model(), toy_layout(), 2);
    upper.entered_word("A");
    let mut lower = InputDecoder::new(toy_model(), toy_layout(), 2);
    lower.entered_word("a");
    assert_eq!(upper.lm_state, lower.lm_state);
    assert_eq!(words_of(&upper.get_predictions()), vec!["b", "a"]);
}

#[test]
fn test_history_truncation() {
    let mut four = InputDecoder::new(toy_model(), toy_layout(), 2);
    four.entered_word("a");
    four.entered_word("b");
    four.entered_word("b");
    four.entered_word("b");
    let mut three = InputDecoder::new(toy_model(), toy_layout(), 2);
    three.entered_word("b");
    three.entered_word("b");
    three.entered_word("b");
    assert_eq!(four.word_history.len(), 3);
    assert_eq!(four.lm_state, three.lm_state);
    let mut with_first = InputDecoder::new(toy_model(), toy_layout(), 2);
    with_first.entered_word("a");
    with_first.entered_word("b");
    with_first.entered_word("b");
    assert!(with_first.lm_state != four.lm_state);
}

#[test]
fn test_get_all_words_bypasses_context_and_limit() {
    let mut decoder = InputDecoder::new(toy_model(), toy_layout(), 1);
    decoder.entered_word("a");
    assert_eq!(decoder.get_predictions().len(), 1);
    let all = decoder.get_all_words();
    assert_eq!(words_of(&all), vec!["a", "b"]);
}

#[test]
fn test_shortlist_shape_and_tie_order() {
    // Both keys share one center, so both words score distance zero: the
    // tie keeps the order in which the candidates were evaluated.
    let layout = KeyLayout::new(vec![
        ('a', pt(200_000, 200_000)),
        ('b', pt(200_000, 200_000)),
    ])
    .unwrap();
    let decoder = InputDecoder::new(toy_model(), layout, 2);
    let shortlist = decoder.find_similar_words(&vec![pt(200_000, 200_000)]).unwrap();
    assert_eq!(shortlist.len(), SHORTLIST_LEN);
    for pair in shortlist.windows(2) {
        assert!(pair[0].1 <= pair[1].1);
    }
    let vocabulary = ["a", "b"];
    let expected: Vec<&str> = decoder
        .candidate_order
        .iter()
        .map(|&idx| vocabulary[idx])
        .collect();
    assert_eq!(shortlist[0], (expected[0].to_string(), 0));
    assert_eq!(shortlist[1], (expected[1].to_string(), 0));
    for entry in &shortlist[2..] {
        assert_eq!(*entry, (String::new(), u64::MAX));
    }
}

#[test]
fn test_pruning_matches_exhaustive_search() {
    // Thirteen keys on one line, twelve two-key words, and a query that
    // traces the first leg: the endpoint lower bound is admissible here
    // (every warping path pays for both endpoint cells), so pruning must
    // return exactly the exhaustive shortlist.
    let mut keys = Vec::new();
    let labels = ['a', 'b', 'c', 'd', 'e', 'f', 'g', 'h', 'i', 'j', 'k', 'l', 'm'];
    for (i, &c) in labels.iter().enumerate() {
        keys.push((c, pt(50_000 + 70_000 * i as i64, 500_000)));
    }
    let layout = KeyLayout::new(keys).unwrap();
    let words = ["ab", "bc", "cd", "de", "ef", "fg", "gh", "hi", "ij", "jk", "kl", "lm"];
    let predictions: Vec<(String, u64)> = words
        .iter()
        .enumerate()
        .map(|(i, w)| (w.to_string(), (100 - i) as u64))
        .collect();
    let states = vec![LmStateData { transitions: vec![], predictions }];
    let model = LanguageModel::new(states).unwrap();
    let decoder = InputDecoder::new(model, layout, 12);

    let query: Vec<Point> = (0..15).map(|i| pt(50_000 + 5_000 * i, 500_000)).collect();
    let pruned = decoder.find_similar_words(&query).unwrap();
    let exhaustive = decoder.find_similar_words_exhaustive(&query).unwrap();
    assert_eq!(pruned, exhaustive);
    assert_eq!(pruned[0].0, "ab");
    assert!(pruned[0].1 < pruned[9].1);
}

#[test]
fn test_invalid_queries() {
    let decoder = InputDecoder::new(toy_model(), toy_layout(), 2);
    assert_eq!(
        decoder.find_similar_words(&vec![]),
        Err(InputError::EmptyQueryPath)
    );
    assert_eq!(
        decoder.find_similar_words(&vec![pt(2_000_000, 0)]),
        Err(InputError::PointOutOfRange)
    );
    assert_eq!(
        decoder.find_similar_words(&vec![pt(0, -1)]),
        Err(InputError::PointOutOfRange)
    );
    let long = vec![pt(1, 1); 16_385];
    assert_eq!(
        decoder.find_similar_words(&long),
        Err(InputError::QueryTooLong)
    );
}

#[test]
fn test_failed_query_leaves_decoder_untouched() {
    let mut decoder = InputDecoder::new(toy_model(), toy_layout(), 2);
    decoder.entered_word("a");
    let state_before = decoder.lm_state;
    let history_before = decoder.word_history.clone();
    assert!(decoder.find_similar_words(&vec![]).is_err());
    assert_eq!(decoder.lm_state, state_before);
    assert_eq!(decoder.word_history, history_before);
}

#[test]
fn test_load_errors() {
    assert_eq!(LanguageModel::new(vec![]).unwrap_err(), LoadError::NoStates);
    let bad_target = vec![LmStateData {
        transitions: vec![("a".to_string(), 5)],
        predictions: vec![],
    }];
    assert_eq!(
        LanguageModel::new(bad_target).unwrap_err(),
        LoadError::TransitionTargetOutOfRange
    );
    let ascending = vec![LmStateData {
        transitions: vec![],
        predictions: vec![("a".to_string(), 1), ("b".to_string(), 2)],
    }];
    assert_eq!(
        LanguageModel::new(ascending).unwrap_err(),
        LoadError::PredictionsNotDescending
    );
    let duplicated = vec![LmStateData {
        transitions: vec![],
        predictions: vec![("a".to_string(), 2), ("a".to_string(), 1)],
    }];
    assert_eq!(
        LanguageModel::new(duplicated).unwrap_err(),
        LoadError::DuplicatePredictionWord
    );
    assert_eq!(
        KeyLayout::new(vec![('a', pt(2_000_000, 0))]).unwrap_err(),
        LoadError::KeyCenterOutOfRange
    );
}

#[test]
fn test_isqrt_exact() {
    assert_eq!(isqrt(0), 0);
    assert_eq!(isqrt(15), 3);
    assert_eq!(isqrt(16), 4);
    assert_eq!(isqrt(u64::MAX), 4_294_967_295);
}

#[test]
fn test_point_distance_exact() {
    assert_eq!(dist_points(pt(0, 0), pt(3, 4)), 5);
    assert_eq!(dist_points(pt(3, 4), pt(0, 0)), 5);
    assert_eq!(dist_points(pt(7, 9), pt(7, 9)), 0);
    // isqrt(2) of the full diagonal
    assert_eq!(dist_points(pt(0, 0), pt(1_000_000, 1_000_000)), 1_414_213);
}

#[test]
fn test_path_density_exact() {
    let path = vec![pt(0, 0), pt(3, 4), pt(3, 8)];
    assert_eq!(path_length(&path), 9);
    assert_eq!(desired_point_density(&path), 3);
    let single = vec![pt(5, 5)];
    assert_eq!(path_length(&single), 0);
    assert_eq!(desired_point_density(&single), 0);
}

#[test]
fn test_dtw_exact() {
    // Two single points: their plain distance.
    assert_eq!(dtw(&vec![pt(0, 0)], &vec![pt(3, 4)], 0), 5);
    // Equal paths: zero.
    let p = vec![pt(0, 0), pt(10, 0)];
    assert_eq!(dtw(&p, &p, 0), 0);
    // The band cannot align paths whose lengths differ by more than it.
    assert_eq!(dtw(&vec![pt(0, 0)], &vec![pt(0, 0), pt(1, 0)], 0), DIST_INF);
    // A warped alignment: the middle point pairs against the nearer end.
    let a = vec![pt(0, 0), pt(5, 0), pt(10, 0)];
    let b = vec![pt(0, 0), pt(10, 0)];
    assert_eq!(dtw(&a, &b, 1), 5);
}

#[test]
fn test_insert_into_k_bsf_behaviour() {
    let sentinel = (String::new(), u64::MAX);
    let mut list = vec![sentinel.clone(), sentinel.clone(), sentinel.clone()];
    insert_into_k_bsf(("x".to_string(), 5), &mut list);
    assert_eq!(list[0], ("x".to_string(), 5));
    // A tie goes after the earlier entry, not before it.
    insert_into_k_bsf(("y".to_string(), 5), &mut list);
    assert_eq!(list[0], ("x".to_string(), 5));
    assert_eq!(list[1], ("y".to_string(), 5));
    insert_into_k_bsf(("z".to_string(), 7), &mut list);
    assert_eq!(list[2], ("z".to_string(), 7));
    // Not better than the worst retained entry: discarded.
    insert_into_k_bsf(("w".to_string(), 9), &mut list);
    assert_eq!(
        list,
        vec![
            ("x".to_string(), 5),
            ("y".to_string(), 5),
            ("z".to_string(), 7)
        ]
    );
    // Better: takes its place, evicting the worst.
    insert_into_k_bsf(("v".to_string(), 6), &mut list);
    assert_eq!(
        list,
        vec![
            ("x".to_string(), 5),
            ("y".to_string(), 5),
            ("v".to_string(), 6)
        ]
    );
}

#[test]
fn test_to_lowercase_ascii() {
    assert_eq!(to_lowercase("HeLLo"), "hello");
    assert_eq!(to_lowercase("A1z!"), "a1z!");
    assert_eq!(to_lowercase(""), "");
}

#[test]
fn test_candidate_order_is_fixed_permutation() {
    let order = make_candidate_order(5);
    let mut sorted = order.clone();
    sorted.sort();
    assert_eq!(sorted, vec![0, 1, 2, 3, 4]);
    assert_eq!(order, make_candidate_order(5));
    assert_eq!(make_candidate_order(0), Vec::<usize>::new());
    assert_eq!(make_candidate_order(1), vec![0]);
}

#[test]
fn test_build_ideal_path_resampling() {
    let layout = KeyLayout::new(vec![('a', pt(0, 0)), ('b', pt(1000, 0))]).unwrap();
    let path = layout.build_ideal_path(&"ab".to_string(), 300).unwrap();
    assert_eq!(
        path,
        vec![pt(0, 0), pt(250, 0), pt(500, 0), pt(750, 0), pt(1000, 0)]
    );
    // Degenerate density: only the key centers themselves.
    let coarse = layout.build_ideal_path(&"ab".to_string(), 0).unwrap();
    assert_eq!(coarse, vec![pt(0, 0), pt(1000, 0)]);
    // Unmappable words yield no path.
    assert!(layout.build_ideal_path(&"ax".to_string(), 300).is_none());
    assert!(layout.build_ideal_path(&"".to_string(), 300).is_none());
}

#[test]
fn test_first_last_points() {
    let layout = toy_layout();
    assert_eq!(
        layout.first_last_points(&"ab".to_string()),
        Some((pt(100_000, 150_000), pt(550_000, 250_000)))
    );
    assert_eq!(
        layout.first_last_points(&"a".to_string()),
        Some((pt(100_000, 150_000), pt(100_000, 150_000)))
    );
    assert_eq!(layout.first_last_points(&"xy".to_string()), None);
    assert_eq!(layout.first_last_points(&"".to_string()), None);
}

#[test]
fn test_context_limits_search_candidates() {
    // With a prediction limit of one, the context decides which single
    // word the search may consider at all: after entering "a" the model
    // predicts ["b", "a"], so even a query drawn exactly on the "a" key
    // can only return "b".
    let mut decoder = InputDecoder::new(toy_model(), toy_layout(), 1);
    let query = vec![pt(100_000, 150_000)];
    let fresh = decoder.find_similar_words(&query).unwrap();
    assert_eq!(fresh[0].0, "a");
    decoder.entered_word("a");
    let contextual = decoder.find_similar_words(&query).unwrap();
    assert_eq!(contextual[0].0, "b");
}
