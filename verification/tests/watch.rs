use webgal_lsp::watch::{file_change_action, FileAction, FileChangeKind};

#[test]
fn config_file_loads_and_drops_its_project() {
    assert_eq!(
        file_change_action("file:///work/game/config.txt", FileChangeKind::Create),
        FileAction::LoadProject("file:///work/game".to_string())
    );
    assert_eq!(
        file_change_action("file:///work/game/config.txt", FileChangeKind::Remove),
        FileAction::DropProject("file:///work/game".to_string())
    );
    assert_eq!(
        file_change_action("file:///work/game/config.txt", FileChangeKind::Change),
        FileAction::UpdateResource("file:///work/game/config.txt".to_string())
    );
}

#[test]
fn other_files_are_resources() {
    assert_eq!(
        file_change_action("file:///work/game/scene/start.txt", FileChangeKind::Create),
        FileAction::UpdateResource("file:///work/game/scene/start.txt".to_string())
    );
    assert_eq!(
        file_change_action("file:///work/game/scene/start.txt", FileChangeKind::Change),
        FileAction::UpdateResource("file:///work/game/scene/start.txt".to_string())
    );
    assert_eq!(
        file_change_action("file:///work/game/scene/start.txt", FileChangeKind::Remove),
        FileAction::RemoveResource("file:///work/game/scene/start.txt".to_string())
    );
    assert_eq!(
        file_change_action("config.txt.bak", FileChangeKind::Create),
        FileAction::UpdateResource("config.txt.bak".to_string())
    );
    assert_eq!(
        file_change_action("config.txt", FileChangeKind::Create),
        FileAction::LoadProject(String::new())
    );
}
