use carrick::current_service::{enter, leave, name, CurrentService};

#[test]
fn nothing_is_in_scope_by_default() {
    assert_eq!(name(&CurrentService::new()), None);
}

#[test]
fn each_service_is_current_only_for_its_own_analysis() {
    let mut current = CurrentService::new();
    {
        let scope = enter(&mut current, Some("api"));
        assert_eq!(name(&current).as_deref(), Some("api"));
        leave(&mut current, scope);
    }
    assert_eq!(name(&current), None, "the gap between two services names neither");
    {
        let scope = enter(&mut current, Some("web"));
        assert_eq!(name(&current).as_deref(), Some("web"));
        leave(&mut current, scope);
    }
    assert_eq!(name(&current), None, "the cross-repo phase names no service");
}

#[test]
fn an_unnamed_service_reports_no_name() {
    let mut current = CurrentService::new();
    let _scope = enter(&mut current, None);
    assert_eq!(name(&current), None);
}

#[test]
fn an_error_mid_analysis_leaves_nothing_in_scope() {
    fn analyse_and_fail(current: &mut CurrentService) -> Result<(), String> {
        let scope = enter(current, Some("api"));
        assert_eq!(name(current).as_deref(), Some("api"));
        let outcome: Result<(), String> = Err("manifest unreadable".to_string());
        leave(current, scope);
        outcome?;
        unreachable!("the error above leaves the function")
    }

    let mut current = CurrentService::new();
    assert!(analyse_and_fail(&mut current).is_err());
    assert_eq!(name(&current), None);
}

#[test]
fn a_nested_scope_does_not_end_the_one_around_it() {
    let mut current = CurrentService::new();
    let outer = enter(&mut current, Some("api"));
    let inner = enter(&mut current, Some("worker"));
    assert_eq!(name(&current).as_deref(), Some("worker"));
    leave(&mut current, inner);
    assert_eq!(name(&current).as_deref(), Some("api"));
    leave(&mut current, outer);
    assert_eq!(name(&current), None);
}
