use medical_parser::count_patients;
use medical_parser::count_total_visits;
use medical_parser::parse_medical_document;
use medical_parser::Grammar;
use medical_parser::ParseError;
use medical_parser::Rule;

// --- document-level behaviour ---

#[test]
fn empty_document_yields_no_patients() {
    let patients = parse_medical_document("").unwrap();
    assert_eq!(patients.len(), 0);
}

#[test]
fn whitespace_only_document_yields_no_patients() {
    let patients = parse_medical_document(" \t\r\n  \n").unwrap();
    assert_eq!(patients.len(), 0);
}

#[test]
fn trailing_garbage_is_a_syntax_error() {
    let input = "<patient><name>Meow</name><age>10</age></patient> uh oh";
    let err = parse_medical_document(input).unwrap_err();
    assert!(matches!(err, ParseError::SyntaxError { .. }));
}

#[test]
fn patient_order_follows_source_order() {
    let input = "\
        <patient><name>First</name><age>1</age></patient>\n\
        <patient><name>Second</name><age>2</age></patient>\n\
        <patient><name>Third</name><age>3</age></patient>";
    let patients = parse_medical_document(input).unwrap();
    assert_eq!(patients.len(), 3);
    assert_eq!(patients[0].name, "First");
    assert_eq!(patients[1].name, "Second");
    assert_eq!(patients[2].name, "Third");
}

#[test]
fn visit_order_follows_source_order() {
    let input = "<patient><name>Meow</name><age>9</age>\
        <visit><diagnosis>One</diagnosis></visit>\
        <visit><diagnosis>Two</diagnosis></visit>\
        <visit><diagnosis>Three</diagnosis></visit>\
        </patient>";
    let patients = parse_medical_document(input).unwrap();
    assert_eq!(patients[0].visits.len(), 3);
    assert_eq!(patients[0].visits[0].diagnosis, "One");
    assert_eq!(patients[0].visits[1].diagnosis, "Two");
    assert_eq!(patients[0].visits[2].diagnosis, "Three");
}

// --- whitespace and trimming ---

#[test]
fn name_is_trimmed_but_tag_whitespace_is_insignificant() {
    let input = "  <patient>\n  <name>  Big Meow\t</name>\n  <age> 110 </age>\n</patient>\n";
    let patients = parse_medical_document(input).unwrap();
    assert_eq!(patients[0].name, "Big Meow");
    assert_eq!(patients[0].age, 110);
}

#[test]
fn diagnosis_and_notes_are_trimmed() {
    let input = "<patient><name>Meow</name><age>10</age>\
        <visit><diagnosis> Flu </diagnosis><notes>\tRest. </notes></visit></patient>";
    let patients = parse_medical_document(input).unwrap();
    assert_eq!(patients[0].visits[0].diagnosis, "Flu");
    assert_eq!(patients[0].visits[0].notes, "Rest.");
}

#[test]
fn whitespace_only_text_trims_to_empty() {
    let input = "<patient><name>Meow</name><age>10</age>\
        <visit><diagnosis> </diagnosis></visit></patient>";
    let patients = parse_medical_document(input).unwrap();
    assert_eq!(patients[0].visits[0].diagnosis, "");
}

#[test]
fn markup_character_inside_text_is_a_syntax_error() {
    let input = "<patient><name>Meow < Cat</name><age>10</age></patient>";
    let err = parse_medical_document(input).unwrap_err();
    assert!(matches!(err, ParseError::SyntaxError { .. }));
}

// --- the age field ---

#[test]
fn age_bounds_are_zero_to_two_hundred_fifty_five() {
    let low = parse_medical_document("<patient><name>A</name><age>0</age></patient>").unwrap();
    assert_eq!(low[0].age, 0);
    let high = parse_medical_document("<patient><name>A</name><age>255</age></patient>").unwrap();
    assert_eq!(high[0].age, 255);
    let over = parse_medical_document("<patient><name>A</name><age>256</age></patient>");
    assert!(matches!(over.unwrap_err(), ParseError::DataError(_)));
}

#[test]
fn age_with_leading_zeros_is_accepted() {
    let patients =
        parse_medical_document("<patient><name>A</name><age>007</age></patient>").unwrap();
    assert_eq!(patients[0].age, 7);
}

#[test]
fn negative_age_is_a_data_error() {
    let err =
        parse_medical_document("<patient><name>A</name><age>-5</age></patient>").unwrap_err();
    match err {
        ParseError::DataError(m) => assert_eq!(m, "Invalid age value"),
        ParseError::SyntaxError { .. } => panic!("expected a data error"),
    }
}

#[test]
fn decimal_age_is_a_data_error() {
    let err =
        parse_medical_document("<patient><name>A</name><age>36.6</age></patient>").unwrap_err();
    assert!(matches!(err, ParseError::DataError(_)));
}

#[test]
fn huge_age_is_a_data_error() {
    let err = parse_medical_document(
        "<patient><name>A</name><age>99999999999999999999</age></patient>",
    )
    .unwrap_err();
    assert!(matches!(err, ParseError::DataError(_)));
}

#[test]
fn data_error_in_first_patient_discards_the_second() {
    let input = "<patient><name>A</name><age>999</age></patient>\
        <patient><name>B</name><age>10</age></patient>";
    assert!(parse_medical_document(input).is_err());
}

// --- the temperature field ---

#[test]
fn temperature_literal_is_kept_verbatim() {
    let input = "<patient><name>A</name><age>1</age>\
        <visit><temperature>-5.3</temperature></visit></patient>";
    let patients = parse_medical_document(input).unwrap();
    assert_eq!(patients[0].visits[0].temperature, "-5.3");
}

#[test]
fn absent_visit_fields_take_defaults() {
    let input = "<patient><name>A</name><age>1</age><visit></visit></patient>";
    let patients = parse_medical_document(input).unwrap();
    let v = &patients[0].visits[0];
    assert_eq!(v.diagnosis, "");
    assert_eq!(v.temperature, "0");
    assert_eq!(v.notes, "");
}

#[test]
fn temperature_with_letters_is_a_syntax_error() {
    let input = "<patient><name>A</name><age>1</age>\
        <visit><temperature>warm</temperature></visit></patient>";
    let err = parse_medical_document(input).unwrap_err();
    assert!(matches!(err, ParseError::SyntaxError { .. }));
}

// --- rule-level checks ---

#[test]
fn number_rule_reports_consumed_length() {
    assert_eq!(Grammar::parse(Rule::number, "36.7").unwrap(), 4);
    assert_eq!(Grammar::parse(Rule::number, "-5.3rest").unwrap(), 4);
    assert_eq!(Grammar::parse(Rule::number, "38").unwrap(), 2);
}

#[test]
fn number_rule_takes_digits_before_a_bare_point() {
    // the fractional part needs a digit: the point stays unconsumed
    assert_eq!(Grammar::parse(Rule::number, "36.").unwrap(), 2);
}

#[test]
fn text_rule_needs_at_least_one_character() {
    assert!(Grammar::parse(Rule::text, "").is_err());
}

#[test]
fn file_rule_requires_end_of_input() {
    assert!(Grammar::parse(Rule::file, "<patient><name>A</name><age>1</age></patient>x").is_err());
    assert!(Grammar::parse(Rule::file, "").is_ok());
}

#[test]
fn syntax_error_position_points_into_the_input() {
    let input = "<patient><name>Meow</name></patient>";
    match parse_medical_document(input).unwrap_err() {
        ParseError::SyntaxError { position } => assert!(position <= input.chars().count()),
        ParseError::DataError(_) => panic!("expected a syntax error"),
    }
}

// --- counting ---

#[test]
fn counts_match_the_parsed_document() {
    let input = "<patient><name>A</name><age>1</age>\
        <visit><diagnosis>x</diagnosis></visit>\
        <visit><diagnosis>y</diagnosis></visit></patient>\
        <patient><name>B</name><age>2</age>\
        <visit><diagnosis>z</diagnosis></visit></patient>";
    let patients = parse_medical_document(input).unwrap();
    assert_eq!(count_patients(&patients), 2);
    assert_eq!(count_total_visits(&patients), 3);
}

#[test]
fn counts_of_an_empty_document_are_zero() {
    let patients = parse_medical_document("  ").unwrap();
    assert_eq!(count_patients(&patients), 0);
    assert_eq!(count_total_visits(&patients), 0);
}
