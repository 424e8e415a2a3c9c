use blend_render::app_state::{
    blend_file_record, blender_version, first_item, first_line, get_db_reply, gpu_count,
    parsed_reply, record_document, state_document, status_payload, AppState, DbContent, DbFetch, DbReply,
};
use blend_render::reply::Status;

fn paths(list: &[&str]) -> Vec<String> {
    list.iter().map(|s| s.to_string()).collect()
}

fn is_message(reply: DbReply, status: Status, text: &str) -> bool {
    reply.status == status
        && match reply.content {
            DbContent::Message(message) => message == text,
            DbContent::Document(_) => false,
        }
}

#[test]
fn initial_state() {
    let state = AppState::initial();
    assert!(!state.password.is_protected);
    assert!(!state.blend_file.is_present);
    assert_eq!(state.blend_file.file_name, "");
    assert_eq!(state.blender_settings.animation_sequence.range.start_frame, 1);
    assert_eq!(state.blender_settings.animation_sequence.range.end_frame, 1);
    assert_eq!(state.blender_settings.animation_sequence.single_frame.frame_value, 1);
    assert!(!state.blender_settings.parallel.enabled);
    assert_eq!(state.blender_settings.parallel.process_count, 1);
    assert_eq!(state.blender_settings.parallel.distribution, "chunks");
    assert!(!state.is_rendering);
    assert_eq!(state.gpu_count, 0);
    assert!(state.parallel_status.is_empty());
}

#[test]
fn first_scene_in_the_alphabet_is_recorded() {
    let record = blend_file_record(&paths(&["b.blend", "a\\z.blend", "a/y.blend", "c.blend"]));
    assert!(record.is_present);
    assert_eq!(record.file_name, Some("a/y.blend".to_string()));
    let turned = blend_file_record(&paths(&["c.blend", "a/y.blend", "a\\z.blend", "b.blend"]));
    assert_eq!(record, turned);
}

#[test]
fn no_scene_is_recorded() {
    let record = blend_file_record(&paths(&[]));
    assert!(!record.is_present);
    assert_eq!(record.file_name, None);
    let nameless = blend_file_record(&paths(&[""]));
    assert!(!nameless.is_present);
    assert_eq!(nameless.file_name, Some("".to_string()));
}

#[test]
fn version_is_the_first_line() {
    assert_eq!(
        blender_version(b"Blender 5.1.0\r\n\tbuild date: \xff\n"),
        Some("Blender 5.1.0".to_string())
    );
    assert_eq!(blender_version(b"\xff"), Some("\u{fffd}".to_string()));
    assert_eq!(blender_version(b""), None);
    assert_eq!(first_line("\nx"), Some("".to_string()));
    assert_eq!(first_line(""), None);
}

#[test]
fn uncounted_gpus_are_none() {
    assert_eq!(gpu_count(Some(3)), 3);
    assert_eq!(gpu_count(None), 0);
}

#[test]
fn state_that_cannot_be_fetched() {
    assert!(is_message(
        get_db_reply(DbFetch::Unreachable),
        Status::InternalServerError,
        "Redis connection error. Please try again",
    ));
    assert!(is_message(
        get_db_reply(DbFetch::Missing),
        Status::NotFound,
        "Key not found or Redis error",
    ));
    assert!(is_message(
        get_db_reply(DbFetch::Text("{".to_string())),
        Status::InternalServerError,
        "JSON parse error",
    ));
    assert!(is_message(
        parsed_reply(Err("why".to_string())),
        Status::InternalServerError,
        "JSON parse error",
    ));
}

#[test]
fn state_is_handed_on() {
    let reply = get_db_reply(DbFetch::Text("{\"gpu_count\": 2}".to_string()));
    assert_eq!(reply.status, Status::Success);
    match reply.content {
        DbContent::Document(state) => assert_eq!(state["gpu_count"], 2),
        DbContent::Message(_) => panic!("no document"),
    }
}

#[test]
fn status_is_the_first_item() {
    let status = status_payload("[[{\"index\":0}], 7]").unwrap();
    assert_eq!(status[0]["index"], 0);
    assert!(status_payload("[]").is_none());
    assert!(status_payload("{\"a\":1}").is_none());
    assert!(status_payload("[").is_none());
    assert!(first_item(vec![]).is_none());
}

#[test]
fn initial_state_as_a_document() {
    let expected = "{\"password\":{\"is_protected\":false,\"key\":\"\"},\
        \"blend_file\":{\"is_present\":false,\"file_name\":\"\"},\
        \"blender_settings\":{\"engine\":\"\",\"animation_sequence\":{\"entire\":false,\
        \"range\":{\"status\":false,\"start_frame\":1,\"end_frame\":1},\
        \"single_frame\":{\"status\":false,\"frame_value\":1}},\"cycle_device\":\"\",\
        \"parallel\":{\"enabled\":false,\"process_count\":1,\"distribution\":\"chunks\"}},\
        \"render_status\":{\"is_rendering\":false},\"latest_preview_image\":\"\",\
        \"rendered_image_list\":[],\"anime_query\":\"\",\"engine_query\":\"\",\
        \"render_stats\":\"\",\"gpu_count\":0,\"parallel_status\":[]}";
    let expected: serde_json::Value = serde_json::from_str(expected).unwrap();
    assert_eq!(state_document(&AppState::initial()), expected);
}

#[test]
fn other_states_as_documents() {
    let mut state = AppState::initial();
    state.blender_settings.animation_sequence.range.start_frame = -5;
    state.rendered_image_list = paths(&["a.png", "b.png"]);
    state.is_rendering = true;
    state.gpu_count = 4294967295;
    let document = state_document(&state);
    assert_eq!(document["blender_settings"]["animation_sequence"]["range"]["start_frame"], -5);
    assert_eq!(document["rendered_image_list"][1], "b.png");
    assert_eq!(document["render_status"]["is_rendering"], true);
    assert_eq!(document["gpu_count"], 4294967295u64);
}

#[test]
fn record_as_a_document() {
    let record = blend_file_record(&paths(&["sub\\a.blend"]));
    assert_eq!(
        record_document(&record).to_string(),
        "{\"blend_file\":{\"file_name\":\"sub/a.blend\",\"is_present\":true}}"
    );
    assert_eq!(
        record_document(&blend_file_record(&paths(&[]))).to_string(),
        "{\"blend_file\":{\"file_name\":null,\"is_present\":false}}"
    );
}
