use blend_render::chunks::{
    chunk_file_name, count_chunks_for_file, is_chunk_file, is_upload_file, session_agrees,
    session_file_name, session_text, validate_session, Assembly,
};

fn names(list: &[&str]) -> Vec<String> {
    list.iter().map(|s| s.to_string()).collect()
}

#[test]
fn file_names() {
    assert_eq!(chunk_file_name("id", 0), "id_0");
    assert_eq!(chunk_file_name("id", 4294967295), "id_4294967295");
    assert_eq!(session_file_name("id"), "id_session.json");
}

#[test]
fn chunks_are_counted() {
    let all = names(&["id_0", "id_1", "id_10", "id_session.json", "id_x", "idx_0", "other_1", "id_"]);
    assert_eq!(count_chunks_for_file(&all, "id"), 3);
    assert_eq!(count_chunks_for_file(&all, "idx"), 1);
    assert_eq!(count_chunks_for_file(&all, "nothing"), 0);
    assert_eq!(count_chunks_for_file(&names(&[]), "id"), 0);
}

#[test]
fn saved_chunks_count_for_any_id() {
    for id in ["id", "a_b", "", "\u{4e16}\u{754c}", "\u{e9}"] {
        assert!(is_chunk_file(&chunk_file_name(id, 0), id));
        assert!(is_chunk_file(&chunk_file_name(id, 123456), id));
        assert!(!is_chunk_file(&session_file_name(id), id));
    }
}

#[test]
fn only_numbers_follow_the_id() {
    for id in ["id", "a_b", "", "\u{4e16}\u{754c}", "\u{e9}"] {
        for rest in ["", "x", "0x", "x0", "xy0", "-1", "+1", " 1", "\u{0661}", "session.json", "1_2"] {
            assert!(!is_chunk_file(&format!("{}_{}", id, rest), id));
        }
        assert!(is_chunk_file(&format!("{}_{}", id, "007"), id));
        assert!(!is_chunk_file(&format!("{}x_0", id), id));
    }
}

#[test]
fn cleanup_takes_the_files_of_the_upload() {
    for name in ["id_0", "id_session.json", "id_more", "id_"] {
        assert!(is_upload_file(name, "id"));
    }
    for name in ["other_0", "idx_1", "id", "i_0", ""] {
        assert!(!is_upload_file(name, "id"));
    }
}

#[test]
fn chunks_are_put_together_in_order() {
    let mut assembly = Assembly::new("id", 3);
    assert_eq!(assembly.next_chunk(), Some("id_0".to_string()));
    assert_eq!(assembly.next_chunk(), Some("id_1".to_string()));
    assert_eq!(assembly.next_chunk(), Some("id_2".to_string()));
    assert_eq!(assembly.next_chunk(), None);
    assert_eq!(assembly.next_chunk(), None);
}

#[test]
fn assembly_of_nothing() {
    assert_eq!(Assembly::new("id", 0).next_chunk(), None);
}

#[test]
fn session_is_valid_for_its_own_file() {
    let name = "a \"quoted\" \u{4e16}\\ name.blend";
    let text = session_text(name, 7, 1748700000);
    assert_eq!(validate_session(&text, name, 7), Ok(true));
    assert_eq!(validate_session(&text, name, 8), Ok(false));
    assert_eq!(validate_session(&text, "b.blend", 7), Ok(false));
}

#[test]
fn session_text_is_json() {
    let value: serde_json::Value = serde_json::from_str(&session_text("a.blend", 2, 5)).unwrap();
    assert_eq!(value["file_name"], "a.blend");
    assert_eq!(value["total_chunks"], 2);
    assert_eq!(value["created_at"], 5);
    assert_eq!(value.as_object().unwrap().len(), 3);
    assert_eq!(
        session_text("a.blend", 2, 5),
        "{\"created_at\":5,\"file_name\":\"a.blend\",\"total_chunks\":2}"
    );
}

#[test]
fn session_of_another_shape_is_not_valid() {
    assert_eq!(validate_session("[1]", "a.blend", 1), Ok(false));
    assert_eq!(validate_session("{\"file_name\":\"a.blend\"}", "a.blend", 1), Ok(false));
    assert_eq!(
        validate_session("{\"file_name\":\"a.blend\",\"total_chunks\":\"1\"}", "a.blend", 1),
        Ok(false)
    );
    assert_eq!(
        validate_session("{\"file_name\":\"a.blend\",\"total_chunks\":1.0}", "a.blend", 1),
        Ok(false)
    );
    assert_eq!(
        validate_session("{\"file_name\":\"a.blend\",\"total_chunks\":1}", "a.blend", 1),
        Ok(true)
    );
}

#[test]
fn session_that_is_no_json_is_an_error() {
    let message = validate_session("{", "a.blend", 1).unwrap_err();
    assert_eq!(message, "EOF while parsing an object at line 1 column 1");
}

#[test]
fn session_and_client_agree_on_both() {
    assert!(session_agrees(Some("a".to_string()), Some(3), "a", 3));
    assert!(!session_agrees(Some("a".to_string()), Some(3), "a", 4));
    assert!(!session_agrees(Some("a".to_string()), None, "a", 3));
    assert!(!session_agrees(Some("b".to_string()), Some(3), "a", 3));
    assert!(!session_agrees(None, Some(3), "a", 3));
}
