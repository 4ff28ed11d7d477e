use pweq::apo::{parse_filter_line, ApoError, Config, Filter};
use pweq::apo_write::type_code_str;
use pweq::module::FilterType;

fn num(t: &str) -> f64 {
    t.parse().unwrap()
}

#[test]
fn test_parse_filter_line() {
    let line = "Filter 1: ON PK Fc 46 Hz Gain 0.8 dB Q 2.9";
    let filter = parse_filter_line(line).unwrap();

    assert_eq!(filter.number, 1);
    assert!(filter.enabled);
    assert_eq!(filter.filter_type, FilterType::Peaking);
    assert_eq!(num(&filter.frequency), 46.0);
    assert_eq!(num(&filter.gain), 0.8);
    assert_eq!(num(&filter.q), 2.9);
}

#[test]
fn test_parse_lowshelf() {
    let line = "Filter 3: ON LSC Fc 105 Hz Gain -0.3 dB Q 0.6666667";
    let filter = parse_filter_line(line).unwrap();

    assert_eq!(filter.number, 3);
    assert!(filter.enabled);
    assert_eq!(filter.filter_type, FilterType::LowShelf);
    assert_eq!(num(&filter.frequency), 105.0);
    assert_eq!(num(&filter.gain), -0.3);
    assert_eq!(num(&filter.q), 0.6666667);
}

#[test]
fn filter_line_keeps_the_value_text() {
    let f = parse_filter_line("Filter 2: OFF HSC Fc 8000 Hz Gain 2.5 dB Q 0.71").unwrap();
    assert_eq!(
        f,
        Filter {
            number: 2,
            enabled: false,
            filter_type: FilterType::HighShelf,
            frequency: "8000".to_string(),
            gain: "2.5".to_string(),
            q: "0.71".to_string(),
        }
    );
}

#[test]
fn filter_line_defaults_missing_parameters() {
    let f = parse_filter_line("Filter 4: ON NO").unwrap();
    assert_eq!(f.filter_type, FilterType::Notch);
    assert_eq!(f.frequency, "1000");
    assert_eq!(f.gain, "0");
    assert_eq!(f.q, "1");
}

#[test]
fn filter_line_errors() {
    assert_eq!(
        parse_filter_line("Filter 1 ON PK"),
        Err(ApoError::InvalidFilterLine("Filter 1 ON PK".to_string()))
    );
    assert_eq!(
        parse_filter_line("Filter x: ON PK"),
        Err(ApoError::InvalidFilterNumber("x".to_string()))
    );
    assert_eq!(
        parse_filter_line("Filter 1: MAYBE PK"),
        Err(ApoError::ExpectedOnOff(Some("MAYBE".to_string())))
    );
    assert_eq!(parse_filter_line("Filter 1:"), Err(ApoError::ExpectedOnOff(None)));
    assert_eq!(parse_filter_line("Filter 1: ON"), Err(ApoError::MissingFilterType));
    assert_eq!(
        parse_filter_line("Filter 1: ON LS Fc 100 Hz"),
        Err(ApoError::FirstOrderType("LS".to_string()))
    );
    assert_eq!(
        parse_filter_line("Filter 1: ON XYZ Fc 100 Hz"),
        Err(ApoError::UnknownFilterType("XYZ".to_string()))
    );
    assert_eq!(
        parse_filter_line("Filter 1: ON PK Fc abc Hz"),
        Err(ApoError::InvalidFrequency("abc".to_string()))
    );
    assert_eq!(
        parse_filter_line("Filter 1: ON PK Fc 100 Hz Gain -x dB"),
        Err(ApoError::InvalidGain("-x".to_string()))
    );
    assert_eq!(
        parse_filter_line("Filter 1: ON PK Fc 100 Hz Q q"),
        Err(ApoError::InvalidQ("q".to_string()))
    );
}

#[test]
fn config_from_text() {
    let text = "# AutoEQ\nPreamp: -6.2 dB\n\nFilter 1: ON LSC Fc 105 Hz Gain 5.1 dB Q 0.70\nFilter 2: ON PK Fc 200 Hz Gain -1.0 dB Q 1.2\nsomething else\n";
    let c = Config::from_str(text).unwrap();
    assert_eq!(c.preamp, "-6.2");
    assert_eq!(c.filters.len(), 2);
    assert_eq!(c.filters[0].filter_type, FilterType::LowShelf);
    assert_eq!(c.filters[1].number, 2);
    assert_eq!(c.filters[1].gain, "-1.0");
}

#[test]
fn config_without_preamp_is_zero_db() {
    let c = Config::from_str("Filter 1: ON PK Fc 46 Hz Gain 0.8 dB Q 2.9").unwrap();
    assert_eq!(c.preamp, "0");
    assert_eq!(c.filters.len(), 1);
}

#[test]
fn config_with_bad_preamp_is_refused() {
    assert_eq!(
        Config::from_str("Preamp: loud dB").err(),
        Some(ApoError::InvalidPreamp("loud".to_string()))
    );
}

#[test]
fn config_first_bad_line_decides() {
    let r = Config::from_str("Filter 1: ON PK Fc 46 Hz\nFilter 2: ON LS\nFilter 3: ON XX");
    assert_eq!(r.err(), Some(ApoError::FirstOrderType("LS".to_string())));
}

fn filter(number: u32, enabled: bool, t: FilterType, f: &str, g: &str, q: &str) -> Filter {
    Filter {
        number,
        enabled,
        filter_type: t,
        frequency: f.to_string(),
        gain: g.to_string(),
        q: q.to_string(),
    }
}

#[test]
fn config_text_writes_each_line() {
    let c = Config {
        preamp: "-6.2".to_string(),
        filters: vec![
            filter(1, true, FilterType::Peaking, "46.0", "0.8", "2.900000"),
            filter(2, false, FilterType::LowShelf, "105.0", "-0.3", "0.666667"),
            filter(3, true, FilterType::HighPass, "20.0", "0.0", "0.707000"),
        ],
    };
    assert_eq!(
        c.to_text(),
        "Preamp: -6.2 dB\n\
         Filter 1: ON PK Fc 46.0 Hz Gain 0.8 dB Q 2.900000\n\
         Filter 2: OFF LSC Fc 105.0 Hz Gain -0.3 dB Q 0.666667\n\
         Filter 3: ON HPQ Fc 20.0 Hz Gain 0.0 dB Q 0.707000\n"
    );
}

#[test]
fn config_text_without_filters() {
    let c = Config { preamp: "0.0".to_string(), filters: vec![] };
    assert_eq!(c.to_text(), "Preamp: 0.0 dB\n");
}

#[test]
fn written_config_reads_back() {
    let c = Config {
        preamp: "-3.5".to_string(),
        filters: vec![
            filter(1, true, FilterType::LowPass, "12000.0", "0.0", "0.707000"),
            filter(7, false, FilterType::BandPass, "440", "-1e1", "2"),
            filter(9, true, FilterType::Notch, "50.5", "inf", "1.5"),
            filter(10, true, FilterType::HighShelf, "8000.0", "+2.5", "0.7"),
        ],
    };
    let back = Config::from_str(&c.to_text()).unwrap();
    assert_eq!(back.preamp, c.preamp);
    assert_eq!(back.filters, c.filters);
}

#[test]
fn type_codes_follow_the_apo_names() {
    assert_eq!(type_code_str(FilterType::LowShelf), "LSC");
    assert_eq!(type_code_str(FilterType::LowPass), "LPQ");
    assert_eq!(type_code_str(FilterType::Peaking), "PK");
    assert_eq!(type_code_str(FilterType::BandPass), "BP");
    assert_eq!(type_code_str(FilterType::Notch), "NO");
    assert_eq!(type_code_str(FilterType::HighPass), "HPQ");
    assert_eq!(type_code_str(FilterType::HighShelf), "HSC");
}

#[test]
fn apo_error_messages() {
    assert_eq!(ApoError::FirstOrderType(s("LS")).message(), "Use LSC instead of LS");
    assert_eq!(ApoError::FirstOrderType(s("HS")).message(), "Use HSC instead of HS");
    assert_eq!(ApoError::ExpectedOnOff(Some(s("MAYBE"))).message(), "Expected ON/OFF, got Some(\"MAYBE\")");
    assert_eq!(ApoError::ExpectedOnOff(None).message(), "Expected ON/OFF, got None");
    assert_eq!(ApoError::InvalidQ(s("x")).message(), "Invalid Q: x");
    assert_eq!(ApoError::MissingFilterType.message(), "Missing filter type");
    let err = Config::from_str("Filter 1: ON PK Fc abc Hz Gain 1 dB Q 1").err().unwrap();
    assert_eq!(err.message(), "Invalid frequency: abc");
}

fn s(t: &str) -> String {
    t.to_string()
}
