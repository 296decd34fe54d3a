use adequate_booru_viewer::filter_expression::{parse, render, Fault};
use adequate_booru_viewer::model::{BoolGroup, BoolOp, Query, QueryAtom, QueryExpr, Tag, TagPolarity};

#[test]
fn boolean_language_round_trips_its_canonical_surface() -> Result<(), Fault> {
    let source = "solo AND ~(blue_eyes OR /(^|_)eyes$/) XOR pokemon_(creature)";
    let query = parse(source)?;
    assert_eq!(render(&query)?, source);
    assert_eq!(parse(&render(&query)?)?, query);
    Ok(())
}

#[test]
fn operators_have_boolean_precedence_and_lowercase_names_remain_tags() -> Result<(), Fault> {
    let query = parse("and OR a AND b XOR c")?;
    assert_eq!(render(&query)?, "and OR a AND b XOR c");
    assert!(parse("a b").is_err());
    assert!(parse("A AND b").is_err());
    Ok(())
}

#[test]
fn nested_exactly_one_groups_keep_their_boundary() -> Result<(), Fault> {
    let query = parse("(a XOR b) XOR c")?;
    assert_eq!(render(&query)?, "(a XOR b) XOR c");
    Ok(())
}

#[test]
fn blank_text_is_the_empty_query_and_renders_empty() -> Result<(), Fault> {
    let query = parse("  \t ")?;
    assert!(query.is_empty());
    assert_eq!(render(&query)?, "");
    Ok(())
}

#[test]
fn faults_name_their_column() {
    let fault = parse("a AND").unwrap_err();
    assert_eq!(fault.column(), 6);
    assert_eq!(fault.message(), "expected a tag, regexp, rating, `~`, or `(`");
    let fault = parse("(a").unwrap_err();
    assert_eq!(fault.column(), 3);
    assert_eq!(fault.message(), "expected `)`");
    let fault = parse("a )").unwrap_err();
    assert_eq!(fault.message(), "expected `AND`, `XOR`, `OR`, or end of expression");
    let fault = parse("/abc").unwrap_err();
    assert_eq!(fault.column(), 1);
    assert_eq!(fault.message(), "regexp literal is missing its closing `/`");
    let fault = parse("a AND Bee").unwrap_err();
    assert_eq!(fault.column(), 7);
    assert_eq!(fault.message(), "tag and rating literals must be lower-case");
}

#[test]
fn empty_groups_cannot_be_rendered() {
    let mut query = Query::default();
    assert!(query.push_group(&[], BoolOp::Or).is_some());
    assert!(query
        .push_atom(&[], QueryAtom::Tag(Tag::forge("solo").unwrap()), TagPolarity::Positive));
    let fault = render(&query).unwrap_err();
    assert_eq!(fault.column(), 1);
    assert_eq!(
        fault.message(),
        "an empty Boolean group cannot be represented in a saved filter"
    );
}

#[test]
fn saved_filter_text_of_an_edited_query() -> Result<(), Fault> {
    let mut query = Query::default();
    assert!(query.push_atom(&[], QueryAtom::Tag(Tag::forge("solo").unwrap()), TagPolarity::Positive));
    let choice = query.push_group(&[], BoolOp::Or).unwrap();
    assert!(query.push_atom(&choice, QueryAtom::Tag(Tag::forge("bikini").unwrap()), TagPolarity::Positive));
    assert!(query.push_atom(&choice, QueryAtom::Tag(Tag::forge("nude").unwrap()), TagPolarity::Negative));
    assert_eq!(render(&query)?, "solo AND (bikini OR ~nude)");
    assert_eq!(parse(&render(&query)?)?, query);
    Ok(())
}

#[test]
fn patterns_escape_their_slashes() -> Result<(), Fault> {
    let query = parse(r"/a\/b/ AND ~~c")?;
    assert_eq!(render(&query)?, r"/a\/b/ AND c");
    Ok(())
}

fn tag(name: &str) -> QueryExpr {
    QueryExpr::Atom { atom: QueryAtom::parse(name).unwrap() }
}

fn group(op: BoolOp, children: Vec<QueryExpr>) -> QueryExpr {
    QueryExpr::Group { group: BoolGroup { op, children } }
}

#[test]
fn rendered_text_reads_back_as_its_surface_and_renders_again() {
    let nested = Query::from_root(group(
        BoolOp::And,
        vec![tag("a"), group(BoolOp::And, vec![tag("b"), group(BoolOp::Or, vec![tag("c")])])],
    ));
    let text = render(&nested).unwrap();
    assert_eq!(text, "a AND b AND c");
    let surface = parse(&text).unwrap();
    assert_eq!(render(&surface).unwrap(), text);
    assert!(surface != nested);
}

#[test]
fn a_negated_group_of_one_negation_renders_a_double_negation() {
    let twice = Query::from_root(QueryExpr::Not {
        child: Box::new(group(BoolOp::And, vec![QueryExpr::Not { child: Box::new(tag("a")) }])),
    });
    let text = render(&twice).unwrap();
    assert_eq!(text, "~~a");
    assert_eq!(render(&parse(&text).unwrap()).unwrap(), "a");
}

#[test]
fn a_tag_written_like_a_rating_reads_back_as_the_rating_with_the_same_text() {
    let tagged = QueryExpr::Atom { atom: QueryAtom::Tag(Tag::forge("rating:q").unwrap()) };
    let query = Query::from_root(group(BoolOp::And, vec![tagged, tag("solo")]));
    let text = render(&query).unwrap();
    assert_eq!(text, "rating:q AND solo");
    let again = parse(&text).unwrap();
    assert!(again != query);
    assert_eq!(render(&again).unwrap(), text);
}
