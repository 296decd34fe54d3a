use adequate_booru_viewer::evaluate::{
    conjunction, disjunction, eval, exactly_one, head_ids, local_sorted_ids_from_keys, Candidate,
    Posting,
};
use adequate_booru_viewer::filter_expression::parse;
use adequate_booru_viewer::model::{BoolOp, Query, QueryAtom, RatingClass, TagPolarity};
use roaring::RoaringBitmap;

/// Posts 1..=8 carry the tags of the bits of `id - 1`: `a` 1, `b` 2, `c` 4.
fn postings() -> (Vec<Posting>, RoaringBitmap) {
    let mut universe = RoaringBitmap::new();
    let mut out = Vec::new();
    for (tag, bit) in [("a", 1u32), ("b", 2), ("c", 4)] {
        let mut ids = RoaringBitmap::new();
        for mask in 0u32..8 {
            universe.insert(mask + 1);
            if mask & bit != 0 {
                ids.insert(mask + 1);
            }
        }
        out.push(Posting { atom: QueryAtom::parse(tag).unwrap(), ids });
    }
    (out, universe)
}

fn assert_truth(query: &Query, truth: impl Fn(u32) -> bool) {
    let (postings, universe) = postings();
    let selected = eval(query.root(), &postings, &universe);
    for mask in 0u32..8 {
        assert_eq!(selected.contains(mask + 1), truth(mask), "mask {mask}");
    }
}

#[test]
fn boolean_query_evaluator_matches_its_truth_algebra() {
    let and = Query::parse("a b");
    assert_truth(&and, |mask| mask & 1 != 0 && mask & 2 != 0);

    let mut or = Query::default();
    let choice = or.push_group(&[], BoolOp::Or).unwrap();
    assert!(or.push_atom(&choice, QueryAtom::parse("a").unwrap(), TagPolarity::Positive));
    assert!(or.push_atom(&choice, QueryAtom::parse("b").unwrap(), TagPolarity::Positive));
    assert_truth(&or, |mask| mask & 1 != 0 || mask & 2 != 0);

    let mut xor = Query::default();
    let choice_x = xor.push_group(&[], BoolOp::Xor).unwrap();
    assert!(xor.push_atom(&choice_x, QueryAtom::parse("a").unwrap(), TagPolarity::Positive));
    assert!(xor.push_atom(&choice_x, QueryAtom::parse("b").unwrap(), TagPolarity::Positive));
    assert!(xor.push_atom(&choice_x, QueryAtom::parse("c").unwrap(), TagPolarity::Positive));
    assert_truth(&xor, |mask| mask.is_power_of_two());

    let mut neither = or;
    assert!(neither.toggle_not(&choice));
    assert_truth(&neither, |mask| mask.trailing_zeros() >= 2);
}

#[test]
fn negations_inside_exactly_one_groups_use_the_universe() {
    let query = parse("~a XOR b").unwrap();
    assert_truth(&query, |mask| (mask & 1 == 0) != (mask & 2 != 0));
    let query = parse("~(a OR c) AND ~b").unwrap();
    assert_truth(&query, |mask| mask == 0);
}

fn bitmap(ids: &[u32]) -> RoaringBitmap {
    ids.iter().copied().collect()
}

#[test]
fn set_algebra_of_candidates() {
    let both = conjunction(vec![
        Candidate::Finite(bitmap(&[1, 2, 3])),
        Candidate::Cofinite(bitmap(&[2])),
    ]);
    assert!(both.contains(1) && !both.contains(2) && both.contains(3) && !both.contains(4));
    let either = disjunction(vec![
        Candidate::Finite(bitmap(&[5])),
        Candidate::Cofinite(bitmap(&[5, 6])),
    ]);
    assert!(either.contains(5) && !either.contains(6) && either.contains(7));
    let one = exactly_one(vec![bitmap(&[1, 2]), bitmap(&[2, 3]), bitmap(&[2, 4])]);
    assert_eq!(one.iter().collect::<Vec<_>>(), vec![1, 3, 4]);
    assert!(matches!(conjunction(Vec::new()), Candidate::Cofinite(_)));
}

#[test]
fn cached_heads_answer_when_they_are_long_enough() {
    let head = [9u32, 8, 7, 6];
    assert_eq!(head_ids(&head, None, 2), Some(vec![9, 8]));
    let evens = Candidate::Finite(bitmap(&[8, 6]));
    assert_eq!(head_ids(&head, Some(&evens), 2), Some(vec![8, 6]));
    assert_eq!(head_ids(&head, Some(&evens), 3), None);
    assert_eq!(head_ids(&[], None, 0), Some(Vec::new()));
}

#[test]
fn local_sorting_keeps_the_best_ranked_keyed_posts() {
    let keys = [0u64, 5, 7, 5, 0, 9];
    let pool = bitmap(&[1, 2, 3, 4, 5, 6]);
    assert_eq!(local_sorted_ids_from_keys(&pool, &keys, 2), vec![5, 2]);
    assert_eq!(local_sorted_ids_from_keys(&pool, &keys, 3), vec![5, 2, 3]);
    assert_eq!(local_sorted_ids_from_keys(&pool, &keys, 10), vec![5, 2, 3, 1]);
    assert!(local_sorted_ids_from_keys(&pool, &keys, 0).is_empty());
}

/// Six posts with a score, a rating and tags, as the search index would hold them.
fn scored_postings() -> (Vec<Posting>, RoaringBitmap, Vec<u64>, Vec<u64>) {
    let posts: [(u32, u64, &str, &[&str]); 6] = [
        (1, 10, "rating:g", &["solo", "bikini"]),
        (2, 20, "rating:q", &["solo", "nude"]),
        (3, 30, "rating:e", &["bikini", "nude"]),
        (4, 40, "rating:s", &["solo"]),
        (5, 50, "rating:g", &["bikini", "nude", "swimsuit"]),
        (6, 60, "rating:g", &["swimsuit"]),
    ];
    let mut universe = RoaringBitmap::new();
    let mut out: Vec<Posting> = Vec::new();
    let mut scores = vec![0u64; 7];
    let mut newest = vec![0u64; 7];
    for (id, score, rating, tags) in posts {
        universe.insert(id);
        scores[id as usize] = score;
        newest[id as usize] = u64::from(id);
        for term in tags.iter().copied().chain([rating]) {
            let atom = QueryAtom::parse(term).unwrap();
            match out.iter_mut().find(|posting| posting.atom == atom) {
                Some(posting) => {
                    posting.ids.insert(id);
                }
                None => {
                    let mut ids = RoaringBitmap::new();
                    ids.insert(id);
                    out.push(Posting { atom, ids });
                }
            }
        }
    }
    (out, universe, scores, newest)
}

#[test]
fn boolean_query_evaluator_cuts_with_roaring_algebra() {
    let (postings, universe, scores, newest) = scored_postings();

    let mut query = Query::default();
    assert!(query.push_atom(&[], QueryAtom::parse("solo").unwrap(), TagPolarity::Positive));
    let choice = query.push_group(&[], BoolOp::Or).unwrap();
    assert!(query.push_atom(&choice, QueryAtom::parse("bikini").unwrap(), TagPolarity::Positive));
    assert!(query.push_atom(&choice, QueryAtom::parse("nude").unwrap(), TagPolarity::Positive));
    assert!(query.push_atom(
        &[],
        QueryAtom::Rating(RatingClass::Explicit),
        TagPolarity::Negative
    ));
    let hits = eval(query.root(), &postings, &universe).materialize(&universe);
    assert_eq!(local_sorted_ids_from_keys(&hits, &scores, 10), vec![2, 1]);

    let mut xor = Query::default();
    let choice = xor.push_group(&[], BoolOp::Xor).unwrap();
    assert!(xor.push_atom(&choice, QueryAtom::parse("bikini").unwrap(), TagPolarity::Positive));
    assert!(xor.push_atom(&choice, QueryAtom::parse("nude").unwrap(), TagPolarity::Positive));
    assert!(xor.push_atom(&choice, QueryAtom::parse("swimsuit").unwrap(), TagPolarity::Positive));
    let hits = eval(xor.root(), &postings, &universe).materialize(&universe);
    assert_eq!(local_sorted_ids_from_keys(&hits, &newest, 10), vec![6, 2, 1]);
}
