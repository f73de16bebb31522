//! Tests for source-file indexing and location mapping.

use ferrix::diagnostics::{Diagnostic, FileId, SourceManager, SourceSpan};

#[test]
fn maps_offsets_to_one_based_locations() {
    let mut sources = SourceManager::new();
    let file = sources.add_file("main.fx", "let x = 1;\nreturn x;\n");

    assert_eq!(sources.file(file).unwrap().location(0).unwrap().line, 1);
    assert_eq!(sources.file(file).unwrap().location(11).unwrap().line, 2);
    assert_eq!(sources.file(file).unwrap().location(18).unwrap().column, 8);
}

#[test]
fn returns_line_text_without_newline() {
    let mut sources = SourceManager::new();
    let file = sources.add_file("main.fx", "let x = 1;\nreturn x;\n");

    assert_eq!(sources.line_text(file, 2), Some("return x;"));
}

#[test]
fn every_offset_of_a_text_has_a_location() {
    let source = "ab\n\nçd\r\n";
    let mut sources = SourceManager::new();
    let id = sources.add_file("main.fx", source);
    let file = sources.file(id).unwrap();
    assert_eq!(file.line_starts, [0, 3, 4]);
    for (line, start) in file.line_starts.iter().enumerate() {
        let location = file.location(*start).unwrap();
        assert_eq!((location.line, location.column), (line + 1, 1));
    }
    for offset in 0..source.len() + 1 {
        let location = file.location(offset).unwrap();
        assert!(location.line <= 3);
        assert_eq!(location.file_id, id);
    }
    assert_eq!(file.location(source.len() + 1), None);
    assert_eq!(file.line_text(3), Some("çd"));
    assert_eq!(file.line_text(0), None);
    assert_eq!(file.line_text(4), None);
    assert_eq!(sources.line_text(FileId(1), 1), None);
    assert_eq!(sources.location(SourceSpan::new(FileId(1), 0, 1)), None);
}

#[test]
fn unplaced_spans_show_the_message_alone() {
    let sources = SourceManager::default();
    let span = SourceSpan::new(FileId(7), 3, 3);
    assert_eq!(span.len(), 0);
    assert!(span.is_empty());
    let diagnostic = Diagnostic::new("lost", Some(span));
    assert_eq!(sources.render_diagnostic(&diagnostic), "error: lost\n");
}
