use adequate_booru_viewer::model::{
    BoolGroup, BoolOp, PostId, QueryExpr, PostRecord, Query, QueryAtom, Rating, RatingClass, Sort, Tag, TagPolarity,
};

#[test]
fn rating_metatags_parse_as_query_predicates() {
    let query = Query::parse("rating:q -rating:e 1girl");
    let terms = Query::parse_terms("rating:q -rating:e 1girl")
        .into_iter()
        .map(|term| (term.atom.term(), term.polarity))
        .collect::<Vec<_>>();
    assert_eq!(
        terms,
        [
            ("rating:q".to_owned(), TagPolarity::Positive),
            ("rating:e".to_owned(), TagPolarity::Negative),
            ("1girl".to_owned(), TagPolarity::Positive)
        ]
    );
    assert_eq!(query.to_text(), "rating:q -rating:e 1girl");
    assert_eq!(
        query.atom_polarity(&QueryAtom::Rating(RatingClass::Explicit)),
        Some(TagPolarity::Negative)
    );
}

#[test]
fn remote_seed_uses_only_one_rating_metatag() {
    let query = Query::parse("rating:q rating:e solo 1girl");
    assert_eq!(query.remote_seed(Sort::Score), "rating:q 1girl order:score");
}

#[test]
fn remote_seed_does_not_conjoin_or_alternatives() {
    let mut query = Query::default();
    assert!(query.push_atom(&[], QueryAtom::parse("solo").expect("solo tag"), TagPolarity::Positive));
    let choice = query.push_group(&[], BoolOp::Or).expect("OR group");
    assert!(query.push_atom(&choice, QueryAtom::parse("bikini").expect("bikini tag"), TagPolarity::Positive));
    assert!(query.push_atom(&choice, QueryAtom::parse("nude").expect("nude tag"), TagPolarity::Positive));
    assert_eq!(query.remote_seed(Sort::Score), "solo order:score");
}

#[test]
fn animated_posts_are_not_indexable() {
    let post = PostRecord {
        id: PostId(1),
        rating: Rating::General,
        score: 0,
        favs: 0,
        width: 1,
        height: 1,
        created_at: String::new(),
        tags: vec![Tag::forge("animated").expect("tag")],
        preview_url: None,
        thumb_360_url: None,
        thumb_720_url: None,
        large_url: None,
        file_url: None,
    };
    assert!(!post.indexable());
}

#[test]
fn toggling_a_term_twice_restores_the_query() {
    let mut query = Query::parse("solo -nude");
    let before = query.copy();
    assert!(query.toggle_not(&[0]));
    assert_eq!(query.to_text(), "-solo -nude");
    assert!(query.toggle_not(&[0]));
    assert_eq!(query, before);
}

#[test]
fn removing_an_atom_drops_every_occurrence() {
    let mut query = Query::parse("solo -nude");
    query.remove_atom(&QueryAtom::parse("nude").unwrap());
    assert_eq!(query.to_text(), "solo");
    assert_eq!(query.atom_polarity(&QueryAtom::parse("nude").unwrap()), None);
}

#[test]
fn pushing_a_term_reports_its_polarity() {
    let mut query = Query::default();
    let tag = QueryAtom::parse("solo").unwrap();
    assert!(query.push_atom(&[], QueryAtom::parse("solo").unwrap(), TagPolarity::Negative));
    assert_eq!(query.atom_polarity(&tag), Some(TagPolarity::Negative));
    assert!(query.push_atom(&[], QueryAtom::parse("solo").unwrap(), TagPolarity::Positive));
    assert_eq!(query.atom_polarity(&tag), Some(TagPolarity::Positive));
    assert_eq!(query.to_text(), "solo");
}

#[test]
fn written_query_text_parses_back_to_the_same_query() {
    let query = Query::parse("  Rating:Q   +Blue_Sky -RATING:explicit\tsolo  ");
    let text = query.to_text();
    assert_eq!(text, "rating:q blue_sky -rating:e solo");
    let again = Query::parse(&text);
    assert!(again == query);
    assert_eq!(again.to_text(), text);
}

#[test]
fn an_included_tag_with_a_leading_minus_reads_back_as_an_exclusion() {
    let query = Query::parse("+-foo");
    let text = query.to_text();
    assert_eq!(text, "-foo");
    let again = Query::parse(&text);
    assert!(again != query);
    assert_eq!(again.atom_polarity(&QueryAtom::parse("foo").unwrap()), Some(TagPolarity::Negative));
}

#[test]
fn group_mut_reaches_the_group_under_negations() {
    let mut expr = QueryExpr::Not {
        child: Box::new(QueryExpr::Group {
            group: BoolGroup { op: BoolOp::And, children: Vec::new() },
        }),
    };
    expr.group_mut().unwrap().op = BoolOp::Or;
    assert_eq!(expr.to_text(), "NOT OR()");
    let mut atom = QueryExpr::Atom { atom: QueryAtom::parse("solo").unwrap() };
    assert!(atom.group_mut().is_none());
}

#[test]
fn forging_a_tag_twice_changes_nothing() {
    let tag = Tag::forge("  Blue Sky\t").unwrap();
    assert_eq!(tag.as_str(), "blue_sky");
    assert_eq!(Tag::forge(tag.as_str()).unwrap().as_str(), "blue_sky");
}

#[test]
fn a_typed_query_written_out_parses_back_to_itself() {
    for raw in ["  Rating:Q  -Blue_Eyes +1girl  ", "-rating:e solo", "", "+ - -+tag tag+x"] {
        let once = Query::parse(raw);
        let twice = Query::parse(&once.to_text());
        assert_eq!(format!("{:?}", twice), format!("{:?}", once));
        assert_eq!(twice.to_text(), once.to_text());
    }
}
