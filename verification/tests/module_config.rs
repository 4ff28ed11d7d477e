use pweq::apo;
use pweq::config_json::{config_value, to_spa_json};
use pweq::module::{
    BiquadCoefficients, Config, Control, FilterType, NodeKind, ParamEqConfig, ParamEqFilter,
    RateAndBiquadCoefficients, RawNodeConfig,
};
use pweq::spa_json::{JsonValue, SpaJson};

fn s(t: &str) -> String {
    t.to_string()
}

fn control(freq: &str, q: &str, gain: &str) -> Control {
    Control { freq: s(freq), q: s(q), gain: s(gain) }
}

const RAW_EXPECTED: &str = r#"{
    context.modules = [
        {
            name = "libpipewire-module-filter-chain"
            args = {
                node.description = "test-eq equalizer"
                media.name = "test-eq"
                filter.graph = {
                    nodes = [
                        {
                            type = "builtin"
                            name = "pweq.filter_preamp"
                            label = "bq_highshelf"
                            control = {
                                Freq = 0.0
                                Q = 0.0
                                Gain = 0.0
                            }
                        }
                        {
                            type = "builtin"
                            name = "pweq.filter_1"
                            label = "bq_raw"
                            config = {
                                coefficients = [
                                    {
                                        rate = 48000
                                        b0 = 0.0
                                        b1 = 0.1
                                        b2 = 0.2
                                        a1 = 0.3
                                        a2 = 0.4
                                    }
                                ]
                            }
                        }
                    ]
                    links = [
                        {
                            output = "pweq.filter_preamp:Out"
                            input = "pweq.filter_1:In"
                        }
                    ]
                }
                audio.channels = 2
                audio_position = [
                    "FL"
                    "FR"
                ]
                playback.props = {
                    node.name = "effect_input.pweq.test-eq"
                    node.passive = false
                }
                capture.props = {
                    node.name = "effect_output.pweq.test-eq"
                    media.class = "Audio/Sink"
                    pweq.managed = true
                }
            }
        }
    ]
}"#;

const PARAM_EQ_EXPECTED: &str = r#"{
    context.modules = [
        {
            name = "libpipewire-module-filter-chain"
            args = {
                node.description = "param-eq equalizer"
                media.name = "param-eq"
                filter.graph = {
                    nodes = [
                        {
                            type = "builtin"
                            name = "pweq.filter_1"
                            label = "param_eq"
                            config = {
                                filters = [
                                    {
                                        type = "bq_highshelf"
                                        Freq = 0.0
                                        Q = 0.0
                                        Gain = -4.2
                                    }
                                    {
                                        type = "bq_lowshelf"
                                        Freq = 200.0
                                        Q = 0.707
                                        Gain = -6.0
                                    }
                                    {
                                        type = "bq_peaking"
                                        Freq = 1000.0
                                        Q = 1.0
                                        Gain = 3.0
                                    }
                                ]
                            }
                        }
                    ]
                }
                audio.channels = 2
                audio_position = [
                    "FL"
                    "FR"
                ]
                playback.props = {
                    node.name = "effect_input.pweq.param-eq"
                    node.passive = false
                }
                capture.props = {
                    node.name = "effect_output.pweq.param-eq"
                    media.class = "Audio/Sink"
                    pweq.managed = true
                }
            }
        }
    ]
}"#;

const APO_EXPECTED: &str = r#"{
    context.modules = [
        {
            name = "libpipewire-module-filter-chain"
            args = {
                node.description = "test-eq equalizer"
                media.name = "test-eq"
                filter.graph = {
                    nodes = [
                        {
                            type = "builtin"
                            name = "pweq.filter_preamp"
                            label = "bq_highshelf"
                            control = {
                                Freq = 0.0
                                Q = 0.0
                                Gain = -1.9
                            }
                        }
                        {
                            type = "builtin"
                            name = "pweq.filter_1"
                            label = "bq_peaking"
                            control = {
                                Freq = 46.0
                                Q = 2.9
                                Gain = 0.8
                            }
                        }
                        {
                            type = "builtin"
                            name = "pweq.filter_2"
                            label = "bq_lowshelf"
                            control = {
                                Freq = 105.0
                                Q = 0.667
                                Gain = -0.3
                            }
                        }
                    ]
                    links = [
                        {
                            output = "pweq.filter_preamp:Out"
                            input = "pweq.filter_1:In"
                        }
                        {
                            output = "pweq.filter_1:Out"
                            input = "pweq.filter_2:In"
                        }
                    ]
                }
                audio.channels = 2
                audio_position = [
                    "FL"
                    "FR"
                ]
                playback.props = {
                    node.name = "effect_input.pweq.test-eq"
                    node.passive = false
                }
                capture.props = {
                    node.name = "effect_output.pweq.test-eq"
                    media.class = "Audio/Sink"
                    pweq.managed = true
                }
            }
        }
    ]
}"#;

#[test]
fn module_test_generate_config_from_raw() {
    let out = to_spa_json(&Config::from_kinds(
        "test-eq",
        s("0.0"),
        vec![NodeKind::Raw {
            config: RawNodeConfig {
                coefficients: vec![RateAndBiquadCoefficients {
                    rate: 48000,
                    coefficients: BiquadCoefficients {
                        b0: s("0.0"),
                        b1: s("0.1"),
                        b2: s("0.2"),
                        a1: s("0.3"),
                        a2: s("0.4"),
                    },
                }],
            },
        }],
    ));
    assert_eq!(out, RAW_EXPECTED);
}

#[test]
fn test_generate_config_from_param_eq() {
    let out = to_spa_json(&Config::from_kinds(
        "param-eq",
        s("-4.2"),
        vec![NodeKind::ParamEq {
            config: ParamEqConfig {
                filters: vec![
                    ParamEqFilter { ty: FilterType::LowShelf, control: control("200.0", "0.707", "-6.0") },
                    ParamEqFilter { ty: FilterType::Peaking, control: control("1000.0", "1.0", "3.0") },
                ],
            },
        }],
    ));
    assert_eq!(out, PARAM_EQ_EXPECTED);
}

#[test]
fn module_test_generate_config_from_apo() {
    let config = apo::Config {
        preamp: s("-1.9"),
        filters: vec![
            apo::Filter {
                number: 1,
                enabled: true,
                filter_type: FilterType::Peaking,
                frequency: s("46.0"),
                gain: s("0.8"),
                q: s("2.9"),
            },
            apo::Filter {
                number: 2,
                enabled: true,
                filter_type: FilterType::LowShelf,
                frequency: s("105.0"),
                gain: s("-0.3"),
                q: s("0.667"),
            },
        ],
    };
    let out = to_spa_json(&Config::from_apo("test-eq", &config));
    assert_eq!(out, APO_EXPECTED);
}

#[test]
fn integral_numbers_are_written_as_floats() {
    // "46" and "-6" are written "46.0" and "-6.0"; "0.707" and "1e-7" as they are.
    let config = Config::from_kinds(
        "x",
        s("-6"),
        vec![NodeKind::Peaking { control: control("46", "0.707", "1e-7") }],
    );
    let out = to_spa_json(&config);
    assert!(out.contains("Gain = -6.0"));
    assert!(out.contains("Freq = 46.0"));
    assert!(out.contains("Q = 0.707"));
    assert!(out.contains("Gain = 1e-7"));
}

#[test]
fn config_json_has_one_context_modules_member() {
    let config = Config::from_kinds("x", s("0"), vec![]);
    match config_value(&config) {
        JsonValue::Object(ms) => {
            assert_eq!(ms.len(), 1);
            assert_eq!(ms[0].0, "context.modules");
            match &ms[0].1 {
                JsonValue::Array(items) => assert_eq!(items.len(), 1),
                other => panic!("not an array: {other:?}"),
            }
        }
        other => panic!("not an object: {other:?}"),
    }
}

#[test]
fn graph_without_filters_has_no_links() {
    let out = to_spa_json(&Config::from_kinds("solo", s("1.5"), vec![]));
    assert!(!out.contains("links"));
    assert!(out.contains("name = \"pweq.filter_preamp\""));
    assert!(out.contains("Gain = 1.5"));
}

#[test]
fn spa_json_renders_nested_values() {
    let v = JsonValue::Object(vec![
        (s("a"), JsonValue::Array(vec![])),
        (s("b"), JsonValue::Array(vec![JsonValue::Null, JsonValue::Bool(true)])),
        (s("c"), JsonValue::String(s("x"))),
        (s("d"), JsonValue::Number(s("3"))),
    ]);
    let out = SpaJson::new(&v).to_string();
    assert_eq!(out, "{\n    a = []\n    b = [\n        null\n        true\n    ]\n    c = \"x\"\n    d = 3\n}");
    let indented = SpaJson::new(&v).with_indent(2).to_string();
    assert!(indented.ends_with("\n  }"));
}

fn coefficients(b0: &str) -> BiquadCoefficients {
    BiquadCoefficients { b0: s(b0), b1: s("0.1"), b2: s("0.2"), a1: s("0.3"), a2: s("0.4") }
}

#[test]
fn equalizer_module_args_hold_one_raw_node_per_band() {
    let band = |f: &str| pweq::eq::Band {
        frequency: s(f),
        gain: s("1.5"),
        q: s("0.7"),
        filter_type: FilterType::Peaking,
        muted: false,
    };
    let eq = pweq::eq::Eq::new(s("living"), vec![band("100"), band("1000")], s("-1.5"));
    let args = eq.to_module_args(&vec![coefficients("1.0"), coefficients("0.9")], 44100);
    assert_eq!(args.media_name, "living-2");
    assert_eq!(args.node_description, "living-2 equalizer");
    let raws: Vec<(u32, String)> = args
        .filter_graph
        .nodes
        .iter()
        .filter_map(|n| match &n.kind {
            NodeKind::Raw { config } => {
                assert_eq!(config.coefficients.len(), 1);
                Some((config.coefficients[0].rate, config.coefficients[0].coefficients.b0.clone()))
            }
            _ => None,
        })
        .collect();
    assert_eq!(raws, vec![(44100, s("1.0")), (44100, s("0.9"))]);
    assert_eq!(args.filter_graph.nodes.len(), 3);
    assert_eq!(args.filter_graph.links.len(), 2);
}

#[test]
fn values_that_are_not_finite_are_written_as_null() {
    let out = to_spa_json(&Config::from_kinds(
        "nf",
        s("0.0"),
        vec![NodeKind::Peaking { control: control("-inf", "NaN", "46") }],
    ));
    assert!(out.contains("Freq = null"), "{out}");
    assert!(out.contains("Q = null"), "{out}");
    assert!(out.contains("Gain = 46.0"), "{out}");
}
