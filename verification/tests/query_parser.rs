use indexcore::query::{Literal, MultiTermQuery, ParsingError, QueryParser, StandardQuery};
use indexcore::query::query_language;
use indexcore::schema::{Schema, TextOptions};
use indexcore::term::Term;

fn string_options() -> TextOptions {
    TextOptions::new(true, true, true)
}

#[test]
pub fn test_query_grammar() {
    assert_eq!(
        query_language("abc:toto").unwrap(),
        vec!(Literal::WithField(String::from("abc"), String::from("toto")))
    );
    assert_eq!(
        query_language("\"some phrase query\"").unwrap(),
        vec!(Literal::DefaultField(String::from("some phrase query")))
    );
    assert_eq!(
        query_language("field:\"some phrase query\"").unwrap(),
        vec!(Literal::WithField(
            String::from("field"),
            String::from("some phrase query")
        ))
    );
    assert_eq!(
        query_language("field:\"some phrase query\" field:toto a").unwrap(),
        vec!(
            Literal::WithField(String::from("field"), String::from("some phrase query")),
            Literal::WithField(String::from("field"), String::from("toto")),
            Literal::DefaultField(String::from("a")),
        )
    );
    assert_eq!(
        query_language("field:\"a ! b\"").unwrap(),
        vec!(Literal::WithField(String::from("field"), String::from("a ! b")),)
    );
    assert_eq!(
        query_language("field:a9e3").unwrap(),
        vec!(Literal::WithField(String::from("field"), String::from("a9e3")),)
    );
    assert_eq!(
        query_language("a9e3").unwrap(),
        vec!(Literal::DefaultField(String::from("a9e3")),)
    );
    assert_eq!(
        query_language("field:タンタイビーって早い").unwrap(),
        vec!(Literal::WithField(
            String::from("field"),
            String::from("タンタイビーって早い")
        ),)
    );
}

#[test]
pub fn test_invalid_queries() {
    println!("{:?}", query_language("ab!c:"));
    assert!(query_language("ab!c:").is_err());
    assert!(query_language("").is_ok());
    assert!(query_language(":fval").is_err());
    assert!(query_language("field:").is_err());
    assert!(query_language(":field").is_err());
    assert!(query_language("f:@e!e").is_err());
    assert!(query_language("f:@e!e").is_err());
}

#[test]
pub fn test_query_parser() {
    let mut schema = Schema::new();
    let text_field = schema.add_text_field("text", string_options()).unwrap();
    let title_field = schema.add_text_field("title", string_options()).unwrap();
    let author_field = schema.add_text_field("author", string_options()).unwrap();
    let query_parser = QueryParser::new(schema, vec![text_field, author_field]);
    assert!(query_parser.parse_query("a:b").is_err());
    {
        let terms = vec![Term::from_field_text(title_field, "abctitle")];
        let query = StandardQuery::MultiTerm(MultiTermQuery::new(terms));
        assert_eq!(query_parser.parse_query("title:abctitle").unwrap(), query);
    }
    {
        let terms = vec![
            Term::from_field_text(text_field, "abctitle"),
            Term::from_field_text(author_field, "abctitle"),
        ];
        let query = StandardQuery::MultiTerm(MultiTermQuery::new(terms));
        assert_eq!(query_parser.parse_query("abctitle").unwrap(), query);
    }
    {
        let terms = vec![Term::from_field_text(title_field, "abctitle")];
        let query = StandardQuery::MultiTerm(MultiTermQuery::new(terms));
        assert_eq!(query_parser.parse_query("title:abctitle   ").unwrap(), query);
        assert_eq!(query_parser.parse_query("    title:abctitle").unwrap(), query);
    }
}

#[test]
fn test_unknown_field_error_carries_name() {
    let mut schema = Schema::new();
    let text_field = schema.add_text_field("text", string_options()).unwrap();
    let parser = QueryParser::new(schema, vec![text_field]);
    match parser.parse_query("nosuch:value") {
        Err(ParsingError::FieldDoesNotExist(name)) => assert_eq!(name, "nosuch"),
        other => panic!("expected FieldDoesNotExist, got {:?}", other),
    }
    match parser.parse_query("ab!c:") {
        Err(ParsingError::SyntaxError) => {}
        other => panic!("expected SyntaxError, got {:?}", other),
    }
}

#[test]
fn test_empty_query_has_no_terms() {
    assert_eq!(query_language("").unwrap(), Vec::<Literal>::new());
    let mut schema = Schema::new();
    let text_field = schema.add_text_field("text", string_options()).unwrap();
    let parser = QueryParser::new(schema, vec![text_field]);
    let query = parser.parse_query("").unwrap();
    assert_eq!(query.num_terms(), 0);
}

#[test]
fn test_query_terms_are_tokenized() {
    let mut schema = Schema::new();
    let text_field = schema.add_text_field("text", string_options()).unwrap();
    let parser = QueryParser::new(schema, vec![text_field]);
    let query = parser.parse_query("\"hello, world\"").unwrap();
    let StandardQuery::MultiTerm(q) = query;
    assert_eq!(q.num_terms(), 2);
    assert_eq!(q.term_at(0).payload().as_slice(), b"hello");
    assert_eq!(q.term_at(1).payload().as_slice(), b"world");
    assert_eq!(q.term_at(0).field(), text_field);
}
