use port_scan::error::SpecParseError;
use port_scan::options::{port_range_option, RangeOptions};
use port_scan::parse::{
    blank, contains_blank, contains_stepped_term, expand_terms, find_fault, parse, settle,
};
use port_scan::portset::PortSet;
use port_scan::serialize::{compact, serialize};
use port_scan::term::RangeTerm;

fn ports_of(text: &str) -> Result<Vec<u16>, SpecParseError> {
    parse(&port_range_option(), text).map(|set| set.to_vec())
}

fn text_of(ports: &[u16]) -> String {
    serialize(&port_range_option(), &PortSet::from_vec(&ports.to_vec()))
}

fn range(start: u16, end: u16) -> RangeTerm {
    RangeTerm::Range { start, step: 1, end }
}

#[test]
fn port_options_are_comma_and_hyphen() {
    let options = port_range_option();
    assert_eq!(options.list_sep, ',');
    assert_eq!(options.range_sep, '-');
    assert_eq!(options.decimal_sep, '.');
    assert_eq!(options.group_sep, '_');
    assert!(!options.whitespace);
}

#[test]
fn serialize_merges_consecutive_ports() {
    assert_eq!(text_of(&[80, 81, 82, 100]), "80-82,100");
}

#[test]
fn serialize_ignores_insertion_order() {
    assert_eq!(text_of(&[100, 82, 80, 81]), "80-82,100");
    assert_eq!(text_of(&[443, 80]), "80,443");
}

#[test]
fn serialize_empty_set_is_empty_text() {
    assert_eq!(text_of(&[]), "");
}

#[test]
fn serialize_writes_lone_port_bare() {
    assert_eq!(text_of(&[5]), "5");
    assert_eq!(text_of(&[1, 3, 5, 7]), "1,3,5,7");
    assert_eq!(text_of(&[0, 65535]), "0,65535");
}

#[test]
fn serialize_writes_two_neighbours_as_range() {
    assert_eq!(text_of(&[1, 2]), "1-2");
    assert_eq!(text_of(&[65534, 65535]), "65534-65535");
}

#[test]
fn serialize_whole_port_space() {
    let all: Vec<u16> = (0..=65535u16).collect();
    assert_eq!(text_of(&all), "0-65535");
}

#[test]
fn serialize_report_example() {
    let mut ports: Vec<u16> = vec![80, 443];
    ports.extend(8000..=8100u16);
    assert_eq!(text_of(&ports), "80,443,8000-8100");
}

#[test]
fn serialize_never_writes_a_range_of_one() {
    for ports in [vec![7u16], vec![7, 9], vec![7, 9, 10, 12], vec![0], vec![65535]] {
        let terms = compact(&PortSet::from_vec(&ports));
        for term in terms {
            if let RangeTerm::Range { start, step, end } = term {
                assert!(start < end);
                assert_eq!(step, 1);
            }
        }
    }
    assert_eq!(text_of(&[7, 9, 10, 12]), "7,9-10,12");
}

#[test]
fn compact_gives_maximal_runs() {
    let terms = compact(&PortSet::from_vec(&vec![100, 80, 82, 81]));
    assert_eq!(terms, vec![range(80, 82), RangeTerm::Single(100)]);
    assert_eq!(compact(&PortSet::new()), vec![]);
}

#[test]
fn serialize_uses_the_given_separators() {
    let options = RangeOptions {
        list_sep: ';',
        range_sep: ':',
        decimal_sep: '.',
        group_sep: '_',
        whitespace: false,
    };
    let set = PortSet::from_vec(&vec![1, 2, 3, 7]);
    assert_eq!(serialize(&options, &set), "1:3;7");
    assert_eq!(parse(&options, "1:3;7").unwrap().to_vec(), vec![1, 2, 3, 7]);
    assert_eq!(parse(&options, "1-3").map(|s| s.to_vec()), Err(SpecParseError::Malformed));
}

#[test]
fn parse_expands_ranges_in_order() {
    assert_eq!(ports_of("80,443,8000-8002"), Ok(vec![80, 443, 8000, 8001, 8002]));
    assert_eq!(ports_of("80,443,8000-8100").unwrap().len(), 103);
}

#[test]
fn parse_single_port() {
    assert_eq!(ports_of("9999"), Ok(vec![9999]));
    assert_eq!(ports_of("0"), Ok(vec![0]));
    assert_eq!(ports_of("65535"), Ok(vec![65535]));
}

#[test]
fn parse_keeps_first_occurrence() {
    assert_eq!(ports_of("5,3,5,1,3"), Ok(vec![5, 3, 1]));
    assert_eq!(ports_of("1-3,2-5"), Ok(vec![1, 2, 3, 4, 5]));
    assert_eq!(ports_of("10,8-12"), Ok(vec![10, 8, 9, 11, 12]));
}

#[test]
fn parse_range_of_one_port() {
    assert_eq!(ports_of("5-5"), Ok(vec![5]));
    assert_eq!(ports_of("65535-65535"), Ok(vec![65535]));
}

#[test]
fn parse_range_up_to_last_port() {
    assert_eq!(ports_of("65530-65535"), Ok(vec![65530, 65531, 65532, 65533, 65534, 65535]));
    let all = ports_of("0-65535").unwrap();
    assert_eq!(all.len(), 65536);
    assert_eq!(all[0], 0);
    assert_eq!(all[65535], 65535);
}

#[test]
fn parse_many_overlapping_ranges() {
    let all = ports_of("0-65535,0-65535,1-65534,65535,0").unwrap();
    assert_eq!(all.len(), 65536);
}

#[test]
fn parse_drops_group_separator() {
    assert_eq!(ports_of("1_000"), Ok(vec![1000]));
    assert_eq!(ports_of("8_000-8_002"), Ok(vec![8000, 8001, 8002]));
}

#[test]
fn parse_empty_text_is_empty_set() {
    assert_eq!(ports_of(""), Ok(vec![]));
}

#[test]
fn parse_rejects_malformed_input() {
    assert_eq!(ports_of("80-"), Err(SpecParseError::Malformed));
    assert_eq!(ports_of("abc"), Err(SpecParseError::Malformed));
    assert_eq!(ports_of("70000"), Err(SpecParseError::Malformed));
    assert_eq!(ports_of("50-10"), Err(SpecParseError::Descending { start: 50, end: 10 }));
}

#[test]
fn parse_rejects_empty_term() {
    assert_eq!(ports_of(","), Err(SpecParseError::Malformed));
    assert_eq!(ports_of("1,,2"), Err(SpecParseError::Malformed));
    assert_eq!(ports_of("1,2,"), Err(SpecParseError::Malformed));
    assert_eq!(ports_of(",1"), Err(SpecParseError::Malformed));
    assert_eq!(ports_of("-5"), Err(SpecParseError::Malformed));
    assert_eq!(ports_of("_"), Err(SpecParseError::Malformed));
    assert_eq!(ports_of("-"), Err(SpecParseError::Malformed));
}

#[test]
fn parse_rejects_out_of_range_port() {
    assert_eq!(ports_of("65536"), Err(SpecParseError::Malformed));
    assert_eq!(ports_of("1-65536"), Err(SpecParseError::Malformed));
    assert_eq!(ports_of("1.5"), Err(SpecParseError::Malformed));
}

#[test]
fn parse_rejects_whitespace() {
    assert_eq!(ports_of("80, 81"), Err(SpecParseError::Whitespace));
    assert_eq!(ports_of(" 80"), Err(SpecParseError::Whitespace));
    assert_eq!(ports_of("80\t"), Err(SpecParseError::Whitespace));
    assert_eq!(ports_of("8 0"), Err(SpecParseError::Whitespace));
    assert_eq!(ports_of(" "), Err(SpecParseError::Whitespace));
    assert_eq!(ports_of("80\u{00A0}"), Err(SpecParseError::Whitespace));
}

#[test]
fn parse_allows_whitespace_when_options_do() {
    let mut options = port_range_option();
    options.whitespace = true;
    assert_eq!(parse(&options, "80, 81").unwrap().to_vec(), vec![80, 81]);
    assert_eq!(parse(&options, "8 0").unwrap().to_vec(), vec![80]);
    assert_eq!(parse(&options, " ").map(|s| s.to_vec()), Err(SpecParseError::Malformed));
}

#[test]
fn parse_rejects_stepped_term() {
    assert_eq!(ports_of("1-2-10"), Err(SpecParseError::Stepped));
    assert_eq!(ports_of("1-1-10"), Err(SpecParseError::Stepped));
    assert_eq!(ports_of("1--4"), Err(SpecParseError::Stepped));
    assert_eq!(ports_of("5,1-2-3-4"), Err(SpecParseError::Stepped));
    assert_eq!(ports_of("1-2,3-4"), Ok(vec![1, 2, 3, 4]));
}

#[test]
fn parse_gives_no_partial_set() {
    assert_eq!(ports_of("80,443,x"), Err(SpecParseError::Malformed));
    assert_eq!(ports_of("1-3,9-7"), Err(SpecParseError::Descending { start: 9, end: 7 }));
}

#[test]
fn parse_reads_back_what_serialize_wrote() {
    let options = port_range_option();
    let samples: Vec<Vec<u16>> = vec![
        vec![],
        vec![0],
        vec![65535],
        vec![80, 81, 82, 100],
        vec![100, 82, 80, 81],
        vec![1, 3, 5, 7, 8, 9, 65534, 65535],
        (0..=65535u16).collect(),
    ];
    for sample in samples {
        let set = PortSet::from_vec(&sample);
        let text = serialize(&options, &set);
        let back = parse(&options, &text).unwrap().to_vec();
        let mut sorted = sample.clone();
        sorted.sort();
        assert_eq!(back, sorted);
        assert_eq!(serialize(&options, &PortSet::from_vec(&back)), text);
    }
}

#[test]
fn settle_follows_the_terms_it_is_given() {
    let options = port_range_option();
    let got = settle(&options, "1-3,2-5", Some(vec![range(1, 3), range(2, 5)]));
    assert_eq!(got.unwrap().to_vec(), vec![1, 2, 3, 4, 5]);
    let got = settle(&options, "7", Some(vec![RangeTerm::Single(7)]));
    assert_eq!(got.unwrap().to_vec(), vec![7]);
    let got = settle(&options, "", Some(vec![]));
    assert_eq!(got.unwrap().to_vec(), Vec::<u16>::new());
}

#[test]
fn settle_reports_each_fault() {
    let options = port_range_option();
    let code = |res: Result<PortSet, SpecParseError>| res.map(|set| set.to_vec());
    assert_eq!(code(settle(&options, "x", None)), Err(SpecParseError::Malformed));
    assert_eq!(code(settle(&options, "_", Some(vec![]))), Err(SpecParseError::Malformed));
    assert_eq!(
        code(settle(&options, "1 ", Some(vec![RangeTerm::Single(1)]))),
        Err(SpecParseError::Whitespace)
    );
    assert_eq!(
        code(settle(&options, "1-1-3", Some(vec![range(1, 3)]))),
        Err(SpecParseError::Stepped)
    );
    let stepped = RangeTerm::Range { start: 1, step: 2, end: 9 };
    assert_eq!(code(settle(&options, "x", Some(vec![stepped]))), Err(SpecParseError::Stepped));
    assert_eq!(
        code(settle(&options, "x", Some(vec![range(5, 1), stepped]))),
        Err(SpecParseError::Descending { start: 5, end: 1 })
    );
    assert_eq!(
        code(settle(&options, "x", Some(vec![range(1, 2), stepped, range(5, 1)]))),
        Err(SpecParseError::Stepped)
    );
}

#[test]
fn find_fault_names_first_faulty_term() {
    assert_eq!(find_fault(&vec![]), None);
    assert_eq!(find_fault(&vec![RangeTerm::Single(1), range(2, 2), range(3, 9)]), None);
    assert_eq!(
        find_fault(&vec![range(1, 2), range(9, 3), range(8, 1)]),
        Some(SpecParseError::Descending { start: 9, end: 3 })
    );
    let zero_step = RangeTerm::Range { start: 1, step: 0, end: 2 };
    assert_eq!(find_fault(&vec![zero_step]), Some(SpecParseError::Stepped));
}

#[test]
fn expand_terms_lists_every_number_once() {
    let terms = vec![range(3, 5), RangeTerm::Single(4), RangeTerm::Single(1), range(5, 6)];
    assert_eq!(find_fault(&terms), None);
    assert_eq!(expand_terms(&terms).to_vec(), vec![3, 4, 5, 1, 6]);
    assert_eq!(expand_terms(&vec![]).to_vec(), Vec::<u16>::new());
}

#[test]
fn blank_is_unicode_white_space() {
    for c in ['\u{0}', ' ', '\t', '\n', '\r', 'a', '0', '-', ',', '_', '\u{85}', '\u{A0}', '\u{1680}',
        '\u{2000}', '\u{200A}', '\u{200B}', '\u{2028}', '\u{2029}', '\u{202F}', '\u{205F}',
        '\u{3000}', '\u{FEFF}', '\u{10FFFF}']
    {
        assert_eq!(blank(c), c.is_whitespace());
    }
    assert!(contains_blank("80, 81"));
    assert!(!contains_blank("80,81"));
    assert!(!contains_blank(""));
}

#[test]
fn stepped_term_needs_two_separators_in_one_term() {
    let options = port_range_option();
    assert!(contains_stepped_term(&options, "1-2-3"));
    assert!(contains_stepped_term(&options, "9,1--3"));
    assert!(!contains_stepped_term(&options, "1-2,3-4"));
    assert!(!contains_stepped_term(&options, "1-,-4"));
    assert!(!contains_stepped_term(&options, ""));
    let same = RangeOptions {
        list_sep: '-',
        range_sep: '-',
        decimal_sep: '.',
        group_sep: '_',
        whitespace: false,
    };
    assert!(!contains_stepped_term(&same, "1-2-3"));
}
