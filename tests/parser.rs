use stepviz::parser::{
    convert_header, find_unit, join_strings, parse_units, unit_from_record, RecordFacts,
};

fn facts(name: &str, params: Option<Vec<Option<&str>>>) -> RecordFacts {
    RecordFacts {
        name: name.to_string(),
        params: params.map(|ps| ps.into_iter().map(|p| p.map(|s| s.to_string())).collect()),
    }
}

#[test]
fn join_with_separator() {
    let parts = vec!["a".to_string(), "b".to_string(), "c".to_string()];
    assert_eq!(join_strings(&parts, "; "), "a; b; c");
    assert_eq!(join_strings(&vec!["only".to_string()], "; "), "only");
    assert_eq!(join_strings(&vec![], "; "), "");
}

#[test]
fn metre_prefixes() {
    let cases = [
        (Some("MILLI"), "mm"),
        (Some("CENTI"), "cm"),
        (Some("DECI"), "dm"),
        (Some("KILO"), "km"),
        (Some("MICRO"), "m"),
        (None, "m"),
    ];
    for (prefix, expected) in cases {
        let r = unit_from_record(&facts("SI_UNIT", Some(vec![prefix, Some("METRE")])));
        assert_eq!(r.as_deref(), Some(expected));
    }
}

#[test]
fn imperial_and_other_units() {
    assert_eq!(unit_from_record(&facts("SI_UNIT", Some(vec![None, Some("INCH")]))).as_deref(), Some("in"));
    assert_eq!(unit_from_record(&facts("SI_UNIT", Some(vec![None, Some("FOOT")]))).as_deref(), Some("ft"));
    assert_eq!(unit_from_record(&facts("SI_UNIT", Some(vec![None, Some("FEET")]))).as_deref(), Some("ft"));
    assert_eq!(
        unit_from_record(&facts("SI_UNIT", Some(vec![None, Some("STERADIAN")]))).as_deref(),
        Some("steradian")
    );
}

#[test]
fn record_name_case_is_ignored() {
    assert_eq!(unit_from_record(&facts("si_unit", Some(vec![None, Some("METRE")]))).as_deref(), Some("m"));
}

#[test]
fn records_without_unit() {
    assert_eq!(unit_from_record(&facts("LENGTH_UNIT", Some(vec![None, Some("METRE")]))), None);
    assert_eq!(unit_from_record(&facts("SI_UNIT", None)), None);
    assert_eq!(unit_from_record(&facts("SI_UNIT", Some(vec![Some("MILLI")]))), None);
    assert_eq!(unit_from_record(&facts("SI_UNIT", Some(vec![Some("MILLI"), None]))), None);
}

#[test]
fn first_unit_wins() {
    let rs = vec![
        facts("PLANE", None),
        facts("SI_UNIT", Some(vec![Some("KILO"), Some("METRE")])),
        facts("SI_UNIT", Some(vec![None, Some("INCH")])),
    ];
    assert_eq!(find_unit(&rs).as_deref(), Some("km"));
    assert_eq!(find_unit(&vec![facts("PLANE", None)]), None);
}

const STEP_TEXT: &str = "ISO-10303-21;
HEADER;
FILE_DESCRIPTION(('first line','second line'),'2;1');
FILE_NAME('part.step','2024-01-01T00:00:00',('Ann'),('Works'),'pp 1','sys 2','none');
FILE_SCHEMA(('AUTOMOTIVE_DESIGN','CONFIG_CONTROL_DESIGN'));
ENDSEC;
DATA;
#1=CARTESIAN_POINT('',(0.,0.,0.));
#2=(LENGTH_UNIT()NAMED_UNIT(*)SI_UNIT(.MILLI.,.METRE.));
ENDSEC;
END-ISO-10303-21;
";

#[test]
fn header_fields_are_joined() {
    let exchange = ruststep::parser::parse(STEP_TEXT).unwrap();
    let h = convert_header(&exchange.header).unwrap();
    assert_eq!(h.file_description, "first line; second line");
    assert_eq!(h.implementation_level, "2;1");
    assert_eq!(h.file_name, "part.step");
    assert_eq!(h.time_stamp, "2024-01-01T00:00:00");
    assert_eq!(h.author, vec!["Ann".to_string()]);
    assert_eq!(h.organization, vec!["Works".to_string()]);
    assert_eq!(h.preprocessor_version, "pp 1");
    assert_eq!(h.originating_system, "sys 2");
    assert_eq!(h.authorization, "none");
    assert_eq!(h.file_schema, "AUTOMOTIVE_DESIGN; CONFIG_CONTROL_DESIGN");
}

#[test]
fn missing_header_gives_none() {
    assert!(convert_header(&[]).is_none());
}

#[test]
fn unit_of_complex_entity() {
    let exchange = ruststep::parser::parse(STEP_TEXT).unwrap();
    assert_eq!(parse_units(&exchange).as_deref(), Some("mm"));
}
