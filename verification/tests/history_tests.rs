//! History revision types: user requests, package operations, builders.

use chrono::TimeZone;
use rattler::history::{
    CreateOperation, CustomOperation, History, InstallOperation, PackageOperation, RemoveOperation,
    Revision, UpdateOperation, UserRequest,
};

#[test]
fn test_user_request_variants() {
    let install_op = InstallOperation { specs: vec![] };
    let remove_op = RemoveOperation { names: vec![] };
    let custom_op = CustomOperation { description: "pip".to_string() };

    assert_eq!(UserRequest::Install(install_op.clone()), UserRequest::Install(install_op));
    assert_eq!(UserRequest::Custom(custom_op.clone()), UserRequest::Custom(custom_op));
    assert_ne!(
        UserRequest::Install(InstallOperation { specs: vec![] }),
        UserRequest::Remove(remove_op)
    );
}

#[test]
fn test_package_operation() {
    assert_ne!(PackageOperation::Add, PackageOperation::Remove);
}

#[test]
fn test_operation_from_conversions() {
    // From implementations for every operation kind.
    let install_op = InstallOperation { specs: vec![] };
    let user_request: UserRequest = install_op.into();
    assert!(matches!(user_request, UserRequest::Install(_)));

    let remove_op = RemoveOperation { names: vec![] };
    let user_request: UserRequest = remove_op.into();
    assert!(matches!(user_request, UserRequest::Remove(_)));

    let update_op = UpdateOperation { specs: vec![] };
    let user_request: UserRequest = update_op.into();
    assert!(matches!(user_request, UserRequest::Update(_)));

    let create_op = CreateOperation { specs: vec![] };
    let user_request: UserRequest = create_op.into();
    assert!(matches!(user_request, UserRequest::Create(_)));

    let custom_op = CustomOperation { description: "test".to_string() };
    let user_request: UserRequest = custom_op.into();
    assert!(matches!(user_request, UserRequest::Custom(_)));
}

#[test]
fn test_revision_construction() {
    let timestamp = chrono::Utc.with_ymd_and_hms(2023, 1, 1, 12, 0, 0).unwrap().timestamp();
    let user_request: UserRequest = InstallOperation { specs: vec![] }.into();
    let diff = vec![];

    let revision = Revision::new(timestamp, user_request.clone(), diff.clone());
    assert_eq!(revision.timestamp, timestamp);
    assert_eq!(revision.user_request, user_request);
    assert_eq!(revision.diff, diff);
    assert_eq!(revision.command, None);
    assert_eq!(revision.tool_version, None);
}

#[test]
fn test_revision_with_builder_methods() {
    let timestamp = chrono::Utc.with_ymd_and_hms(2023, 1, 1, 12, 0, 0).unwrap().timestamp();
    let user_request: UserRequest = UpdateOperation { specs: vec![] }.into();
    let diff = vec![];
    let command = "conda update numpy".to_string();
    let tool_version = "22.11.1".to_string();

    let revision = Revision::new(timestamp, user_request.clone(), diff.clone())
        .with_command(command.clone())
        .with_tool_version(tool_version.clone());

    assert_eq!(revision.command, Some(command));
    assert_eq!(revision.tool_version, Some(tool_version));
    assert_eq!(revision.timestamp, timestamp);
    assert_eq!(revision.user_request, user_request);
    assert_eq!(revision.diff, diff);
}

#[test]
fn test_revision_with_individual_methods() {
    let timestamp = chrono::Utc.with_ymd_and_hms(2023, 1, 1, 12, 0, 0).unwrap().timestamp();
    let revision_base = Revision::new(timestamp, InstallOperation { specs: vec![] }.into(), vec![]);

    // with_command only.
    let with_cmd = revision_base.clone().with_command("conda install numpy".to_string());
    assert_eq!(with_cmd.command, Some("conda install numpy".to_string()));
    assert_eq!(with_cmd.tool_version, None);

    // with_tool_version only.
    let with_version = revision_base.clone().with_tool_version("22.11.1".to_string());
    assert_eq!(with_version.command, None);
    assert_eq!(with_version.tool_version, Some("22.11.1".to_string()));
}

#[test]
fn test_history_push_and_len() {
    let timestamp = chrono::Utc.with_ymd_and_hms(2023, 12, 1, 0, 0, 0).unwrap().timestamp();
    let mut history = History::new();
    assert_eq!(history.len(), 0);
    history.push(Revision::new(timestamp, InstallOperation { specs: vec![] }.into(), vec![]));
    assert_eq!(history.len(), 1);
    assert_eq!(history.get(0).timestamp, timestamp);
}

#[test]
fn test_history_new_and_default() {
    let history1 = History::new();
    let history2 = History::default();
    assert_eq!(history1, history2);
    assert!(history1.len() == 0);
}
