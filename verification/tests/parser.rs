use biquad_studio::parser::{AutoEqProfile, FilterType, ParametricFilter, ParseError};

fn num(text: &str) -> f64 {
    text.parse::<f64>().unwrap()
}

#[test]
fn test_parse_complete() {
    let content = "\
Preamp: -6.2 dB
Filter 1: ON PK Fc 105 Hz Gain -2.3 dB Q 1.41
Filter 2: ON LSC Fc 105 Hz Gain 7.0 dB Q 0.71
Filter 3: ON HSC Fc 8000 Hz Gain 2.1 dB Q 0.71
Filter 4: OFF PK Fc 2400 Hz Gain -3.5 dB Q 2.80
";
    let profile = AutoEqProfile::parse(content).unwrap();
    assert_eq!(num(&profile.preamp_db), -6.2);
    assert_eq!(profile.filters.len(), 4);
    assert_eq!(profile.filters[0].filter_type, FilterType::Peaking);
    assert_eq!(num(&profile.filters[0].frequency_hz), 105.0);
    assert!(profile.filters[0].enabled);

    assert_eq!(profile.filters[1].filter_type, FilterType::LowShelf);
    assert_eq!(profile.filters[2].filter_type, FilterType::HighShelf);

    assert_eq!(profile.filters[3].filter_type, FilterType::Peaking);
    assert!(!profile.filters[3].enabled);
}

#[test]
fn test_parse_disabled_filters() {
    let content = "Filter 1: OFF PK Fc 100 Hz Gain 0.0 dB Q 1.0\n";
    let profile = AutoEqProfile::parse(content).unwrap();
    assert!(!profile.filters[0].enabled);
}

#[test]
fn test_parse_only_preamp() {
    let content = "Preamp: -4.5 dB\n";
    let profile = AutoEqProfile::parse(content).unwrap();
    assert_eq!(num(&profile.preamp_db), -4.5);
    assert!(profile.filters.is_empty());
}

#[test]
fn test_parse_empty() {
    let profile = AutoEqProfile::parse("").unwrap();
    assert_eq!(num(&profile.preamp_db), 0.0);
    assert!(profile.filters.is_empty());
}

#[test]
fn test_parse_comments_and_blank_lines() {
    let content = "\n# Some comment\nPreamp: -1.0 dB\n\n# Filter\nFilter 1: ON PK Fc 1000 Hz Gain -1.0 dB Q 1.0";
    let profile = AutoEqProfile::parse(content).unwrap();
    assert_eq!(num(&profile.preamp_db), -1.0);
    assert_eq!(profile.filters.len(), 1);
}

#[test]
fn test_parse_unknown_filter_type() {
    let content = "Filter 1: ON UNKNOWN Fc 1000 Hz Gain -1.0 dB Q 1.0";
    assert!(matches!(AutoEqProfile::parse(content), Err(ParseError::UnknownFilterType(_))));
}

#[test]
fn test_missing_q_for_lp_hp() {
    let content = "Filter 1: ON LP Fc 1000 Hz";
    let profile = AutoEqProfile::parse(content).unwrap();
    assert_eq!(num(&profile.filters[0].q), 0.707);
}

#[test]
fn test_to_coefficients() {
    let profile = AutoEqProfile {
        preamp_db: "-5.0".to_string(),
        filters: vec![
            ParametricFilter {
                enabled: true,
                filter_type: FilterType::Peaking,
                frequency_hz: "1000.0".to_string(),
                gain_db: "2.0".to_string(),
                q: "1.0".to_string(),
            },
            ParametricFilter {
                enabled: false,
                filter_type: FilterType::LowShelf,
                frequency_hz: "100.0".to_string(),
                gain_db: "1.0".to_string(),
                q: "0.707".to_string(),
            },
        ],
    };
    let bands = profile.enabled_filters();
    assert_eq!(bands.len(), 1);
    assert_eq!(bands[0].filter_type, FilterType::Peaking);
    assert_eq!(num(&bands[0].frequency_hz), 1000.0);
}

#[test]
fn parse_keeps_number_tokens_and_defaults() {
    let profile = AutoEqProfile::parse("Filter 1: ON HP Gain +3e1 Q .5\n").unwrap();
    let f = &profile.filters[0];
    assert_eq!(f.filter_type, FilterType::HighPass);
    assert_eq!(f.frequency_hz, "0.0");
    assert_eq!(f.gain_db, "+3e1");
    assert_eq!(f.q, ".5");
    assert_eq!(profile.preamp_db, "0.0");
}

#[test]
fn parse_last_preamp_wins_and_crlf_lines() {
    let profile = AutoEqProfile::parse("Preamp: 1 dB\r\nPreamp: -2.5 dB\r\n").unwrap();
    assert_eq!(profile.preamp_db, "-2.5");
}

#[test]
fn parse_type_aliases() {
    let content = "Filter 1: ON PEQ\nFilter 2: ON LS\nFilter 3: ON HS\nFilter 4: ON LP\nFilter 5: ON HP\n";
    let profile = AutoEqProfile::parse(content).unwrap();
    let kinds: Vec<FilterType> = profile.filters.iter().map(|f| f.filter_type).collect();
    assert_eq!(
        kinds,
        vec![FilterType::Peaking, FilterType::LowShelf, FilterType::HighShelf, FilterType::LowPass, FilterType::HighPass]
    );
}

#[test]
fn parse_invalid_preamp() {
    match AutoEqProfile::parse("  Preamp: loud  \n") {
        Err(ParseError::InvalidPreamp(line)) => assert_eq!(line, "Preamp: loud"),
        _ => panic!("expected an invalid preamp"),
    }
    match AutoEqProfile::parse("Preamp:") {
        Err(ParseError::InvalidPreamp(line)) => assert_eq!(line, "Preamp:"),
        _ => panic!("expected an invalid preamp"),
    }
}

#[test]
fn parse_filter_errors_carry_line_numbers() {
    match AutoEqProfile::parse("# head\n\nFilter 1: ON\n") {
        Err(ParseError::InvalidFilter { line_num, detail }) => {
            assert_eq!(line_num, 3);
            assert_eq!(detail, "Too few tokens");
        }
        _ => panic!("expected too few tokens"),
    }
    match AutoEqProfile::parse("Filter 1: on PK Fc 10") {
        Err(ParseError::InvalidFilter { line_num, detail }) => {
            assert_eq!(line_num, 1);
            assert_eq!(detail, "Expected ON/OFF");
        }
        _ => panic!("expected ON/OFF"),
    }
    for (text, detail) in [
        ("Filter 1: ON PK Fc abc", "Invalid Fc"),
        ("Filter 1: ON PK Gain x", "Invalid Gain"),
        ("Filter 1: ON PK Q Q", "Invalid Q"),
    ] {
        match AutoEqProfile::parse(&format!("Preamp: 0\n{}", text)) {
            Err(ParseError::InvalidFilter { line_num, detail: d }) => {
                assert_eq!(line_num, 2);
                assert_eq!(d, detail);
            }
            _ => panic!("expected {}", detail),
        }
    }
}

#[test]
fn parse_keyword_at_end_is_ignored_and_other_lines_skipped() {
    let profile = AutoEqProfile::parse("Hello world\nFilter 1: ON PK Fc 50 Q\n").unwrap();
    assert_eq!(profile.filters.len(), 1);
    assert_eq!(profile.filters[0].frequency_hz, "50");
    assert_eq!(profile.filters[0].q, "0.707");
}

#[test]
fn parse_unknown_type_reports_token() {
    match AutoEqProfile::parse("Filter 1: OFF BP Fc 10") {
        Err(ParseError::UnknownFilterType(t)) => assert_eq!(t, "BP"),
        _ => panic!("expected an unknown type"),
    }
}

#[test]
fn parsed_numbers_always_read_as_floats() {
    let content = "Preamp: +.5 dB\nFilter 1: ON PK Fc 1e3 Hz Gain -inf dB Q NaN\nFilter 2: OFF HP Fc 2.\nFilter 3: ON LS Gain -0.0E-2 Q 7";
    let p = AutoEqProfile::parse(content).unwrap();
    let mut all = vec![p.preamp_db.clone()];
    for f in &p.filters {
        all.push(f.frequency_hz.clone());
        all.push(f.gain_db.clone());
        all.push(f.q.clone());
    }
    for t in &all {
        assert!(t.parse::<f64>().is_ok(), "{t}");
    }
    assert_eq!(num(&p.filters[0].frequency_hz), 1000.0);
    assert_eq!(num(&p.filters[1].frequency_hz), 2.0);
    assert_eq!(num(&p.filters[1].q), 0.707);
    assert_eq!(num(&p.filters[2].frequency_hz), 0.0);
}
