use kanban::{CommandResult, Configs, KanbanError, KanbanErrorKind};

#[test]
fn test_new() {
    let error = KanbanError::new(KanbanErrorKind::ProjectError, "Project Test Error");
    assert_eq!(KanbanErrorKind::ProjectError, error.kind);
    assert_eq!("Project Test Error", error.message);
    assert!(error.source.is_none());
}

#[test]
fn test_from_source() {
    let source_error = std::io::Error::new(std::io::ErrorKind::NotFound, "Not Found Error");
    let error = KanbanError::from_source(KanbanErrorKind::IoError, &source_error.to_string());
    assert_eq!(KanbanErrorKind::IoError, error.kind);
    assert_eq!("Not Found Error", &error.message);
    assert!(error.source.is_some());
    let inner = error.source.unwrap();
    assert_eq!("Not Found Error", inner.as_str());
}

#[test]
fn test_display_fmt() {
    let error = KanbanError::new(KanbanErrorKind::ProjectError, "Project Error Test");
    let formatted = error.to_string();
    assert_eq!("[ProjectError] Project Error Test", &formatted);
}

#[test]
fn test_source_function() {
    let source_error = std::io::Error::new(std::io::ErrorKind::Other, "inner test error");
    let error = KanbanError::from_source(KanbanErrorKind::IoError, &source_error.to_string());
    let source = error.source();
    assert!(source.is_some());
    let source = source.unwrap();
    assert_eq!("inner test error", source.as_str());
}

#[test]
fn from_box_source_keeps_description() {
    let error = KanbanError::from_box_source(KanbanErrorKind::TauriError, "tauri path error".to_string());
    assert_eq!(KanbanErrorKind::TauriError, error.kind);
    assert_eq!("tauri path error", error.message);
    assert_eq!(Some("tauri path error".to_string()), error.source);
    assert_eq!("[TauriError] tauri path error", error.to_string());
}

#[test]
fn display_names_every_kind() {
    let kinds = [
        (KanbanErrorKind::IoError, "[IoError] m"),
        (KanbanErrorKind::TauriError, "[TauriError] m"),
        (KanbanErrorKind::ProjectError, "[ProjectError] m"),
        (KanbanErrorKind::TextError, "[TextError] m"),
        (KanbanErrorKind::NumberError, "[NumberError] m"),
    ];
    for (kind, expected) in kinds {
        assert_eq!(expected, KanbanError::new(kind, "m").to_string());
    }
}

#[test]
fn command_result_of_success() {
    let result: CommandResult<u32> = CommandResult::from_result(Ok(7));
    assert!(result.success);
    assert_eq!(Some(7), result.data);
    assert!(result.message.is_none());
}

#[test]
fn command_result_of_failure() {
    let result: CommandResult<u32> =
        CommandResult::from_result(Err(KanbanError::new(KanbanErrorKind::IoError, "Project does not exists")));
    assert!(!result.success);
    assert!(result.data.is_none());
    assert_eq!(Some("Project does not exists".to_string()), result.message);
}

#[test]
fn default_configs() {
    let configs = Configs::default();
    assert_eq!(60, configs.auto_save_interval);
    assert_eq!("#B6DFFF", configs.new_list_default_color);
}
