use javafmt::suite::{SuiteCase, SuiteDefinition, SuiteManifest, tally_suites};

fn case(name: &str) -> SuiteCase {
    SuiteCase {
        name: String::from(name),
        input: format!("{name}.input"),
        expected_output: format!("{name}.output"),
    }
}

#[test]
fn tally_counts_pass_fail_and_pending_assets() {
    let manifest = SuiteManifest {
        version: String::from("1.0"),
        repository: String::from("repo"),
        tag: String::from("v1"),
        suites: vec![
            SuiteDefinition {
                id: String::from("data"),
                kind: String::from("full_format"),
                note: None,
                cases: vec![case("pass"), case("fail"), case("also_pass")],
                assets: Vec::new(),
            },
            SuiteDefinition {
                id: String::from("imports"),
                kind: String::from("imports"),
                note: Some(String::from("later")),
                cases: Vec::new(),
                assets: vec![String::from("a"), String::from("b")],
            },
        ],
    };
    let outcomes = vec![vec![true, false, true], Vec::new()];
    let report = tally_suites(manifest, &outcomes);
    assert_eq!(report.executable_cases, 3);
    assert_eq!(report.passed_cases, 2);
    assert_eq!(report.failed_cases, 1);
    assert_eq!(report.pending_assets, 2);
    assert_eq!(report.suites.len(), 2);
    assert_eq!(report.suites[0].failed_case_names, vec![String::from("fail")]);
    assert_eq!(report.suites[1].pending_assets, 2);
    assert_eq!(report.suites[1].note, Some(String::from("later")));
    assert_eq!(report.tag, "v1");
}

#[test]
fn tally_of_empty_full_format_suite_has_no_cases() {
    let manifest = SuiteManifest {
        version: String::from("1.0"),
        repository: String::from("repo"),
        tag: String::from("v1"),
        suites: vec![SuiteDefinition {
            id: String::from("empty"),
            kind: String::from("full_format"),
            note: None,
            cases: Vec::new(),
            assets: vec![String::from("ignored")],
        }],
    };
    let report = tally_suites(manifest, &vec![Vec::new()]);
    assert_eq!(report.executable_cases, 0);
    assert_eq!(report.pending_assets, 0);
    assert_eq!(report.suites[0].failed_cases, 0);
}
