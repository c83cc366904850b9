use ssmpuller::LookupOutcome;
use ssmpuller::PullerError;
use ssmpuller::ResolvedParameter;
use ssmpuller::render_environment_file;
use ssmpuller::resolve_lookup;

fn param(name: &str, value: &str) -> ResolvedParameter {
    ResolvedParameter { name: name.to_string(), value: value.to_string() }
}

/// Parses environment-file text back into pairs: one newline-terminated
/// `NAME='VALUE'` line per pair, the name everything before the first `='`,
/// the value everything between that separator and the line's closing quote.
fn parse_env_text(text: &str) -> Option<Vec<(String, String)>> {
    let mut pairs = Vec::new();
    let mut rest = text;
    while !rest.is_empty() {
        let nl = rest.find('\n')?;
        let line = &rest[..nl];
        rest = &rest[nl + 1..];
        let sep = line.find("='")?;
        if line.len() < sep + 3 || !line.ends_with('\'') {
            return None;
        }
        pairs.push((line[..sep].to_string(), line[sep + 2..line.len() - 1].to_string()));
    }
    Some(pairs)
}

#[test]
fn test_write_environment_file() {
    let parameters = vec![
        param("S1_TOKEN", "S1_CRED"),
        param("S2_TOKEN", "S2_CRED"),
    ];
    let result = render_environment_file(&parameters);
    assert_eq!(
        result,
        r#"S1_TOKEN='S1_CRED'
S2_TOKEN='S2_CRED'
"#
    );
}

#[test]
fn empty_set_renders_zero_bytes() {
    let parameters: Vec<ResolvedParameter> = Vec::new();
    let result = render_environment_file(&parameters);
    assert_eq!(result, "");
    assert_eq!(result.len(), 0);
}

#[test]
fn rendering_is_idempotent() {
    let parameters = vec![param("A_KEY", "first"), param("B_KEY", "second")];
    let once = render_environment_file(&parameters);
    let twice = render_environment_file(&parameters);
    assert_eq!(once, twice);
    assert_eq!(once, "A_KEY='first'\nB_KEY='second'\n");
}

#[test]
fn parsing_rendered_output_recovers_pairs() {
    let parameters = vec![
        param("DB_HOST", "db.example.test"),
        param("DB_PASS", "p=as\"s word"),
        param("EMPTY", ""),
    ];
    let rendered = render_environment_file(&parameters);
    let recovered = parse_env_text(&rendered).expect("rendered output must parse");
    assert_eq!(recovered.len(), parameters.len());
    for (got, want) in recovered.iter().zip(parameters.iter()) {
        assert_eq!(got.0, want.name);
        assert_eq!(got.1, want.value);
    }
}

#[test]
fn value_with_quote_is_rendered_verbatim() {
    let parameters = vec![param("K", "a'b")];
    let rendered = render_environment_file(&parameters);
    assert_eq!(rendered, "K='a'b'\n");
}

#[test]
fn invalid_name_fails_whole_request() {
    let outcome = LookupOutcome::Response {
        parameters: vec![param("S1_TOKEN", "S1_CRED")],
        invalid_parameters: vec!["BAD_NAME".to_string()],
    };
    match resolve_lookup(outcome) {
        Err(PullerError::InvalidParameter(name)) => assert_eq!(name, "BAD_NAME"),
        other => panic!("expected InvalidParameter, got {:?}", other),
    }
}

#[test]
fn first_invalid_name_is_reported() {
    let outcome = LookupOutcome::Response {
        parameters: Vec::new(),
        invalid_parameters: vec!["FIRST_BAD".to_string(), "SECOND_BAD".to_string()],
    };
    match resolve_lookup(outcome) {
        Err(PullerError::InvalidParameter(name)) => assert_eq!(name, "FIRST_BAD"),
        other => panic!("expected InvalidParameter, got {:?}", other),
    }
}

#[test]
fn dependency_failure_passes_through() {
    let outcome = LookupOutcome::Failure { detail: "network error".to_string() };
    match resolve_lookup(outcome) {
        Err(PullerError::Dependency(detail)) => assert_eq!(detail, "network error"),
        other => panic!("expected Dependency, got {:?}", other),
    }
}

#[test]
fn full_resolution_renders_expected_file() {
    let outcome = LookupOutcome::Response {
        parameters: vec![param("S1_TOKEN", "S1_CRED"), param("S2_TOKEN", "S2_CRED")],
        invalid_parameters: Vec::new(),
    };
    let resolved = resolve_lookup(outcome).expect("both names resolve");
    let rendered = render_environment_file(&resolved);
    assert_eq!(rendered, "S1_TOKEN='S1_CRED'\nS2_TOKEN='S2_CRED'\n");
}

#[test]
fn empty_request_renders_empty_file() {
    let outcome = LookupOutcome::Response {
        parameters: Vec::new(),
        invalid_parameters: Vec::new(),
    };
    let resolved = resolve_lookup(outcome).expect("empty resolution succeeds");
    assert!(resolved.is_empty());
    let rendered = render_environment_file(&resolved);
    assert_eq!(rendered.len(), 0);
}
