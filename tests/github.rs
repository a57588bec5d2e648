use gh_actions_scaler::github::{collect_workflow_runs, queued_runs_url, WorkflowRun};

#[test]
fn queued_runs_url_for_github() {
    assert_eq!(
        queued_runs_url("https://github.com/trustin/gh-actions-scaler").as_deref(),
        Some("https://api.github.com/repos/trustin/gh-actions-scaler/actions/runs?status=queued")
    );
}

#[test]
fn queued_runs_url_for_enterprise() {
    assert_eq!(
        queued_runs_url("http://ghe.example/team/app").as_deref(),
        Some("http://ghe.example/api/v3/repos/team/app/actions/runs?status=queued")
    );
}

#[test]
fn queued_runs_url_refuses_other_shapes() {
    assert_eq!(queued_runs_url("https://github.com/trustin"), None);
    assert_eq!(queued_runs_url("https://github.com/a/b/c"), None);
    assert_eq!(queued_runs_url("https://github.com//b"), None);
    assert_eq!(queued_runs_url("ftp://github.com/a/b"), None);
}

#[test]
fn runs_collected() {
    let runs = collect_workflow_runs(Some(vec![Some("u1".to_string()), Some("u2".to_string())]));
    assert_eq!(
        runs,
        Ok(vec![
            WorkflowRun { url: "u1".to_string() },
            WorkflowRun { url: "u2".to_string() }
        ])
    );
    assert_eq!(collect_workflow_runs(Some(vec![])), Ok(vec![]));
}

#[test]
fn runs_without_array_or_url_refused() {
    assert_eq!(
        collect_workflow_runs(None),
        Err("The response doesn't have an array field 'workflow_runs'.".to_string())
    );
    assert_eq!(
        collect_workflow_runs(Some(vec![Some("u1".to_string()), None])),
        Err("The response contains a run without the 'url' field.".to_string())
    );
}
