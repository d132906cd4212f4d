//! The command model carries exactly what was filled in.

use promptheus::cli::EditArgs;

#[test]
fn test_edit_args_enhanced() {
    let args = EditArgs {
        identifier: Some("test-prompt".to_string()),
        id: None,
        tag: Some("test".to_string()),
        category: Some("test-category".to_string()),
        file: false,
        editor: Some("vim".to_string()),
        line: Some(42),
    };

    assert_eq!(args.identifier, Some("test-prompt".to_string()));
    assert_eq!(args.tag, Some("test".to_string()));
    assert_eq!(args.category, Some("test-category".to_string()));
    assert_eq!(args.editor, Some("vim".to_string()));
    assert_eq!(args.line, Some(42));
    assert!(!args.file);
}

#[test]
fn test_edit_args_defaults() {
    let args = EditArgs {
        identifier: None,
        id: None,
        tag: None,
        category: None,
        file: false,
        editor: None,
        line: None,
    };

    assert!(args.identifier.is_none());
    assert!(args.id.is_none());
    assert!(args.tag.is_none());
    assert!(args.category.is_none());
    assert!(!args.file);
    assert!(args.editor.is_none());
    assert!(args.line.is_none());
}
