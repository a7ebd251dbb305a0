use voice_memos::schema::{available_commands, schema_for, schema_reply, SchemaReply};

#[test]
fn schema_list_has_expected_fields() {
    let s = schema_for("list").unwrap();
    assert_eq!(s.command, "list");
    let names: Vec<&str> = s.output_fields.iter().map(|f| f.name).collect();
    assert!(names.contains(&"uuid"));
    assert!(names.contains(&"title"));
    assert!(names.contains(&"status"));
    assert!(names.contains(&"words"));
    assert!(names.contains(&"duration_secs"));
}

#[test]
fn schema_show_has_transcript() {
    let s = schema_for("show").unwrap();
    let names: Vec<&str> = s.output_fields.iter().map(|f| f.name).collect();
    assert!(names.contains(&"transcript"));
    assert!(names.contains(&"words"));
}

#[test]
fn schema_extract_has_files() {
    let s = schema_for("extract").unwrap();
    let names: Vec<&str> = s.output_fields.iter().map(|f| f.name).collect();
    assert!(names.contains(&"extracted"));
    assert!(names.contains(&"files"));
}

#[test]
fn schema_unknown_returns_none() {
    assert!(schema_for("nonexistent").is_none());
}

#[test]
fn available_commands_includes_all() {
    let cmds = available_commands();
    assert!(cmds.contains(&"list"));
    assert!(cmds.contains(&"show"));
    assert!(cmds.contains(&"extract"));
}

#[test]
fn schema_list_nullable_fields_marked_correctly() {
    let s = schema_for("list").unwrap();
    let method = s.output_fields.iter().find(|f| f.name == "method").unwrap();
    assert!(method.nullable);
    let uuid = s.output_fields.iter().find(|f| f.name == "uuid").unwrap();
    assert!(!uuid.nullable);
}

#[test]
fn every_available_command_has_its_schema() {
    for c in available_commands() {
        assert_eq!(schema_for(c).unwrap().command, c);
    }
    assert_eq!(schema_for("list").unwrap().output_fields.len(), 11);
    assert_eq!(schema_for("show").unwrap().output_fields.len(), 9);
    assert_eq!(schema_for("extract").unwrap().output_fields[4].field_type, "array");
}

#[test]
fn schema_reply_unknown_lists_commands() {
    match schema_reply(Some("bogus")) {
        Err(e) => assert_eq!(e, "unknown command: bogus. Available: list, show, extract"),
        Ok(_) => panic!("expected an error"),
    }
    match schema_reply(None) {
        Ok(SchemaReply::All(v)) => {
            let names: Vec<&str> = v.iter().map(|s| s.command).collect();
            assert_eq!(names, vec!["list", "show", "extract"]);
        }
        _ => panic!("expected all schemas"),
    }
    match schema_reply(Some("show")) {
        Ok(SchemaReply::One(s)) => assert_eq!(s.command, "show"),
        _ => panic!("expected one schema"),
    }
}

#[test]
fn schemas_carry_folder_and_eviction() {
    let list = schema_for("list").unwrap();
    let folder = list.output_fields.iter().find(|f| f.name == "folder").unwrap();
    assert!(folder.nullable);
    let evicted = list.output_fields.iter().find(|f| f.name == "evicted").unwrap();
    assert_eq!(evicted.field_type, "boolean");
    assert!(!evicted.nullable);
    let show = schema_for("show").unwrap();
    assert!(show.output_fields.iter().any(|f| f.name == "folder"));
    let extract = schema_for("extract").unwrap();
    assert!(extract.output_fields.iter().any(|f| f.name == "evicted"));
}
