use webgal_lsp::project::error::PathError;
use webgal_lsp::project::fs::{DirEntry, ExistsResult};
use webgal_lsp::project::listing;
use webgal_lsp::project::variable::VariableLocation;

#[test]
fn exists_result_queries() {
    let file = ExistsResult { exists: true, is_directory: false };
    assert!(file.is_file() && file.exists_file() && !file.exists_directory());
    let dir = ExistsResult { exists: true, is_directory: true };
    assert!(!dir.is_file() && !dir.exists_file() && dir.exists_directory());
    let none = ExistsResult { exists: false, is_directory: false };
    assert!(!none.exists_file() && !none.exists_directory());
}

#[test]
fn dir_entry_projections() {
    let file = DirEntry { name: "a.txt".to_string(), is_directory: false };
    assert!(file.is_file());
    assert_eq!(file.as_file(), Some("a.txt"));
    assert_eq!(file.as_directory(), None);
    assert_eq!(file.clone().into_file(), Some("a.txt".to_string()));
    assert_eq!(file.into_directory(), None);
    let dir = DirEntry { name: "scene".to_string(), is_directory: true };
    assert_eq!(dir.as_directory(), Some("scene"));
    assert_eq!(dir.into_directory(), Some("scene".to_string()));
}

#[test]
fn listing_entry_projections() {
    let file = listing::DirEntry { name: "a.txt".to_string(), is_file: true };
    assert!(!file.is_folder());
    assert_eq!(file.as_file(), Some("a.txt"));
    assert_eq!(file.as_folder(), None);
    assert_eq!(file.into_file(), Some("a.txt".to_string()));
    let dir = listing::DirEntry { name: "bg".to_string(), is_file: false };
    assert!(dir.is_folder());
    assert_eq!(dir.as_folder(), Some("bg"));
    assert_eq!(dir.clone().into_file(), None);
    assert_eq!(dir.into_folder(), Some("bg".to_string()));
}

#[test]
fn path_error_messages() {
    assert_eq!(PathError::NotFound.message(), "路径不存在");
    assert_ne!(PathError::OutsideRoot, PathError::IsFolder);
}

#[test]
fn variable_location_clone() {
    let loc = VariableLocation { scene: "start.txt".to_string(), line: 3, span: 4..9 };
    assert_eq!(loc.clone(), loc);
}

use webgal_lsp::project::variable::VariableKind;

#[derive(Debug, Clone, Copy, PartialEq, Eq)]
enum ValueKind {
    Number,
    Text,
}

#[test]
fn variable_kind_merge_table() {
    let number = VariableKind::Known(ValueKind::Number);
    let text = VariableKind::Known(ValueKind::Text);
    let unknown = VariableKind::<ValueKind>::Unknown;
    let conflict = VariableKind::<ValueKind>::Conflict;
    assert_eq!(number.merge(&number), number);
    assert_eq!(number.merge(&text), conflict);
    assert_eq!(number.merge(&unknown), number);
    assert_eq!(unknown.merge(&text), text);
    assert_eq!(unknown.merge(&unknown), unknown);
    assert_eq!(conflict.merge(&unknown), conflict);
    assert_eq!(unknown.merge(&conflict), conflict);
    assert_eq!(number.merge(&conflict), conflict);
}

#[test]
fn variable_kind_from_option_and_back() {
    assert_eq!(VariableKind::from_option(Some(ValueKind::Text)), VariableKind::Known(ValueKind::Text));
    assert_eq!(VariableKind::<ValueKind>::from_option(None), VariableKind::Unknown);
    assert_eq!(VariableKind::Known(ValueKind::Number).as_kind(), Some(ValueKind::Number));
    assert_eq!(VariableKind::<ValueKind>::Conflict.as_kind(), None);
    assert_eq!(VariableKind::<ValueKind>::default(), VariableKind::Unknown);
}

#[test]
fn variable_kind_merge_order_does_not_matter() {
    let kinds = [
        VariableKind::Known(ValueKind::Number),
        VariableKind::Known(ValueKind::Text),
        VariableKind::Unknown,
        VariableKind::Conflict,
    ];
    for a in kinds {
        for b in kinds {
            assert_eq!(a.merge(&b), b.merge(&a));
            for c in kinds {
                assert_eq!(a.merge(&b).merge(&c), a.merge(&b.merge(&c)));
            }
        }
    }
}

use webgal_lsp::position::{position_in_range, Position, Range};
use webgal_lsp::project::variable::variable_location_to_range;

#[test]
fn variable_location_span_as_range() {
    let location = VariableLocation { scene: "a.txt".to_string(), line: 3, span: 5..9 };
    assert_eq!(
        variable_location_to_range(&location),
        Range {
            start: Position { line: 3, character: 5 },
            end: Position { line: 3, character: 9 }
        }
    );
}

#[test]
fn position_in_range_is_half_open() {
    let span = Range {
        start: Position { line: 1, character: 4 },
        end: Position { line: 2, character: 2 },
    };
    assert!(position_in_range(Position { line: 1, character: 4 }, span));
    assert!(position_in_range(Position { line: 1, character: 90 }, span));
    assert!(position_in_range(Position { line: 2, character: 1 }, span));
    assert!(!position_in_range(Position { line: 2, character: 2 }, span));
    assert!(!position_in_range(Position { line: 1, character: 3 }, span));
    assert!(!position_in_range(Position { line: 0, character: 9 }, span));
}
