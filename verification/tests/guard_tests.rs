use anemoi::guard::{analyze_source, Rule};

fn rules(source: &str) -> Vec<Rule> {
    analyze_source(source)
        .expect("source parses")
        .into_iter()
        .map(|violation| violation.rule)
        .collect()
}

#[test]
fn flags_pub_fn_inside_cfg_test_module() {
    let source = r#"
            #[cfg(test)]
            mod tests {
                pub fn create_decision_log() -> u32 { 1 }
            }
        "#;

    let found = analyze_source(source).expect("parses");
    assert_eq!(found.len(), 1);
    assert_eq!(found[0].rule, Rule::PubFnInTestModule);
    assert_eq!(found[0].item, "create_decision_log");
}

#[test]
fn ignores_private_fn_inside_cfg_test_module() {
    let source = r#"
            #[cfg(test)]
            mod tests {
                fn helper() -> u32 { 1 }
            }
        "#;

    assert_eq!(rules(source), Vec::<Rule>::new());
}

#[test]
fn ignores_pub_fn_outside_test_module() {
    let source = "pub fn record_decision() -> u32 { 1 }";

    assert_eq!(rules(source), Vec::<Rule>::new());
}

#[test]
fn flags_test_that_only_checks_is_ok() {
    let source = r#"
            #[cfg(test)]
            mod tests {
                #[test]
                fn stores_decision() {
                    let result = save();
                    assert!(result.is_ok());
                }
            }
        "#;

    let found = analyze_source(source).expect("parses");
    assert_eq!(found.len(), 1);
    assert_eq!(found[0].rule, Rule::VacuousTest);
    assert_eq!(found[0].item, "stores_decision");
}

#[test]
fn flags_test_that_only_checks_is_some() {
    let source = r#"
            #[cfg(test)]
            mod tests {
                #[tokio::test]
                async fn finds_record() {
                    assert!(lookup().is_some());
                }
            }
        "#;

    assert_eq!(rules(source), vec![Rule::VacuousTest]);
}

#[test]
fn accepts_test_whose_only_assertion_is_a_refusal() {
    let source = r#"
            #[cfg(test)]
            mod tests {
                #[tokio::test]
                async fn live_execution_requires_flag() {
                    assert!(execute().await.is_err(), "should refuse without flag");
                }
            }
        "#;

    assert_eq!(rules(source), Vec::<Rule>::new());
}

#[test]
fn accepts_test_whose_only_assertion_is_an_absence() {
    let source = r#"
            #[cfg(test)]
            mod tests {
                #[test]
                fn nothing_resident_yet() {
                    assert!(snapshot.last_inspected.is_none());
                }
            }
        "#;

    assert_eq!(rules(source), Vec::<Rule>::new());
}

#[test]
fn accepts_test_that_compares_a_value() {
    let source = r#"
            #[cfg(test)]
            mod tests {
                #[test]
                fn reads_back_what_was_written() {
                    let got = store.get(id);
                    assert_eq!(got, Some(expected));
                }
            }
        "#;

    assert_eq!(rules(source), Vec::<Rule>::new());
}

#[test]
fn accepts_weak_probe_when_a_strong_assert_is_present() {
    let source = r#"
            #[cfg(test)]
            mod tests {
                #[test]
                fn records_and_reads_back() {
                    let stored = store.record(&decision);
                    assert!(stored.is_ok());
                    assert_eq!(store.get(decision.id), Some(decision));
                }
            }
        "#;

    assert_eq!(rules(source), Vec::<Rule>::new());
}

#[test]
fn accepts_assert_with_explicit_comparison_even_using_a_probe_value() {
    let source = r#"
            #[cfg(test)]
            mod tests {
                #[test]
                fn count_is_one() {
                    assert!(rows.len() == 1 && first.is_some());
                }
            }
        "#;

    assert_eq!(rules(source), Vec::<Rule>::new());
}

#[test]
fn allow_marker_suppresses_vacuous_test() {
    let source = r#"
            #[cfg(test)]
            mod tests {
                // anemoi-guard:allow vacuous-test - intentional smoke test
                #[test]
                fn boots() {
                    assert!(start().is_ok());
                }
            }
        "#;

    assert_eq!(rules(source), Vec::<Rule>::new());
}

#[test]
fn allow_marker_suppresses_pub_fn_in_test_module() {
    let source = r#"
            #[cfg(test)]
            mod tests {
                // anemoi-guard:allow pub-fn-in-test-module
                pub fn fixture() -> u32 { 1 }
            }
        "#;

    assert_eq!(rules(source), Vec::<Rule>::new());
}

#[test]
fn reports_unparseable_source_as_error() {
    let result = analyze_source("fn broken( {");
    assert!(result.is_none());
}

#[test]
fn findings_name_the_function_and_its_first_line() {
    let source = "//! a file\n\n#[cfg(test)]\nmod tests {\n    /// helper\n    pub fn fixture() -> u32 { 1 }\n\n    mod inner {\n        #[test]\n        fn probe() {\n            let v = vec![1];\n            assert!(check(v).is_ok());\n        }\n    }\n}\n";

    let found = analyze_source(source).expect("parses");
    assert_eq!(found.len(), 2);
    assert_eq!(found[0].rule, Rule::PubFnInTestModule);
    assert_eq!(found[0].item, "fixture");
    assert_eq!(found[0].line, 5);
    assert_eq!(found[1].rule, Rule::VacuousTest);
    assert_eq!(found[1].item, "probe");
    assert_eq!(found[1].line, 9);
}

#[test]
fn macros_nested_in_other_calls_or_after_keywords_are_not_assertions() {
    let source = "#[test]\nfn only_logs() {\n    if !(ready()) { return; }\n    println!(\"{}\", assert!(x.is_ok()));\n}\n\n#[test]\nfn inner_block_probe() {\n    {\n        assert!(load().is_some());\n    }\n}\n";

    let found = analyze_source(source).expect("parses");
    assert_eq!(found.len(), 1);
    assert_eq!(found[0].item, "inner_block_probe");
    assert_eq!(found[0].line, 7);
}
