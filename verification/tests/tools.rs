use spicy::args::{Args, Commands, Task};
use spicy::utils::create_text_file;

#[test]
fn text_file_request_carries_the_bytes_of_the_text() {
    let request = create_text_file("common/data/Header", "header.json", "{\n  \"ä\": 1\n}\n");
    assert_eq!(request.subpath, "common/data/Header");
    assert_eq!(request.file, "header.json");
    assert_eq!(request.content, "{\n  \"ä\": 1\n}\n".as_bytes().to_vec());
}

#[test]
fn empty_text_file_request() {
    let request = create_text_file("", "", "");
    assert_eq!(request.subpath, "");
    assert_eq!(request.file, "");
    assert!(request.content.is_empty());
}

#[test]
fn commands_ask_for_their_tasks() {
    let tasks = |command: Commands| Args { command }.tasks();
    assert_eq!(tasks(Commands::New { path: "game".to_string() }), vec![Task::New]);
    assert_eq!(tasks(Commands::Clear), vec![Task::EnsureCommonExists, Task::Clear]);
    assert_eq!(tasks(Commands::Edit), Vec::<Task>::new());
    assert_eq!(tasks(Commands::Run), vec![Task::Compile]);
    assert_eq!(tasks(Commands::Compile), vec![Task::EnsureCommonExists, Task::Compile]);
    assert_eq!(
        tasks(Commands::Decompile { input_path: None }),
        vec![Task::EnsureCommonExists, Task::Decompile]
    );
    assert_eq!(
        tasks(Commands::Decompile { input_path: Some("x.omwaddon".to_string()) }),
        vec![Task::EnsureCommonExists, Task::Decompile]
    );
}
