//! The state of the application as the database keeps it: how it begins, how
//! it is refreshed, and how clients get to see it.
use crate::frame_range::{decode_lossy, lossy_text};
use crate::json::{
    Json, array_items, array_value, bool_value, empty_object, integer_value, json_of, json_parse,
    null_value, number_value, read_document, set_member, text_value, whole,
};
use crate::parallel_job::{
    ProcessStatus, StatusView, board_document, board_json, lemma_status_fields, state_name,
    status_json,
};
use crate::reply::Status;
use crate::text::{
    comes_before, forward_slashes, lines, lines_of, precedes, precedes_irreflexive,
    precedes_total, precedes_transitive, slashed, texts,
};
use serde_json::Value;
use vstd::prelude::*;

verus! {

/// Whether clients have to log in.
#[derive(Debug, PartialEq)]
pub struct PasswordState {
    pub is_protected: bool,
    pub key: String,
}

/// The uploaded scene.
#[derive(Debug, PartialEq)]
pub struct BlendFileState {
    pub is_present: bool,
    pub file_name: String,
}

/// A range of frames.
#[derive(Debug, PartialEq)]
pub struct FrameRangeState {
    pub status: bool,
    pub start_frame: i64,
    pub end_frame: i64,
}

/// A single frame.
#[derive(Debug, PartialEq)]
pub struct SingleFrameState {
    pub status: bool,
    pub frame_value: i64,
}

/// Which frames are rendered.
#[derive(Debug, PartialEq)]
pub struct AnimationState {
    pub entire: bool,
    pub range: FrameRangeState,
    pub single_frame: SingleFrameState,
}

/// Whether and how several processes share the frames.
#[derive(Debug, PartialEq)]
pub struct ParallelState {
    pub enabled: bool,
    pub process_count: u32,
    pub distribution: String,
}

/// How a scene is rendered.
#[derive(Debug, PartialEq)]
pub struct BlenderState {
    pub engine: String,
    pub animation_sequence: AnimationState,
    pub cycle_device: String,
    pub parallel: ParallelState,
}

/// The whole state.
#[derive(Debug, PartialEq)]
pub struct AppState {
    pub password: PasswordState,
    pub blend_file: BlendFileState,
    pub blender_settings: BlenderState,
    pub is_rendering: bool,
    pub latest_preview_image: String,
    pub rendered_image_list: Vec<String>,
    pub anime_query: String,
    pub engine_query: String,
    pub render_stats: String,
    pub gpu_count: u32,
    pub parallel_status: Vec<ProcessStatus>,
}

/// The state before anything has happened: no password, no scene, nothing
/// rendered and nothing being rendered, no GPU known, one process in chunks,
/// and every frame number one.
pub open spec fn is_initial(state: AppState) -> bool {
    &&& !state.password.is_protected && state.password.key@ == ""@
    &&& !state.blend_file.is_present && state.blend_file.file_name@ == ""@
    &&& state.blender_settings.engine@ == ""@
    &&& !state.blender_settings.animation_sequence.entire
    &&& state.blender_settings.animation_sequence.range == (FrameRangeState {
        status: false,
        start_frame: 1,
        end_frame: 1,
    })
    &&& state.blender_settings.animation_sequence.single_frame == (SingleFrameState {
        status: false,
        frame_value: 1,
    })
    &&& state.blender_settings.cycle_device@ == ""@
    &&& !state.blender_settings.parallel.enabled
    &&& state.blender_settings.parallel.process_count == 1
    &&& state.blender_settings.parallel.distribution@ == "chunks"@
    &&& !state.is_rendering
    &&& state.latest_preview_image@ == ""@
    &&& state.rendered_image_list@.len() == 0
    &&& state.anime_query@ == ""@ && state.engine_query@ == ""@ && state.render_stats@ == ""@
    &&& state.gpu_count == 0
    &&& state.parallel_status@.len() == 0
}

impl AppState {
    /// The state before anything has happened.
    pub fn initial() -> (res: AppState)
        ensures
            is_initial(res),
    {
        AppState {
            password: PasswordState { is_protected: false, key: "".to_owned() },
            blend_file: BlendFileState { is_present: false, file_name: "".to_owned() },
            blender_settings: BlenderState {
                engine: "".to_owned(),
                animation_sequence: AnimationState {
                    entire: false,
                    range: FrameRangeState { status: false, start_frame: 1, end_frame: 1 },
                    single_frame: SingleFrameState { status: false, frame_value: 1 },
                },
                cycle_device: "".to_owned(),
                parallel: ParallelState {
                    enabled: false,
                    process_count: 1,
                    distribution: "chunks".to_owned(),
                },
            },
            is_rendering: false,
            latest_preview_image: "".to_owned(),
            rendered_image_list: Vec::new(),
            anime_query: "".to_owned(),
            engine_query: "".to_owned(),
            render_stats: "".to_owned(),
            gpu_count: 0,
            parallel_status: Vec::new(),
        }
    }
}

/// Which scene there is, as the database keeps it.
pub open spec fn blend_file_json(is_present: bool, file_name: Seq<char>) -> Json {
    Json::Object(
        map![
            "is_present"@ => Json::Bool(is_present),
            "file_name"@ => Json::Text(file_name),
        ],
    )
}

/// Which frames are rendered, as the database keeps it.
pub open spec fn animation_json(animation: AnimationState) -> Json {
    Json::Object(
        map![
            "entire"@ => Json::Bool(animation.entire),
            "range"@ => Json::Object(
                map![
                    "status"@ => Json::Bool(animation.range.status),
                    "start_frame"@ => whole(animation.range.start_frame),
                    "end_frame"@ => whole(animation.range.end_frame),
                ],
            ),
            "single_frame"@ => Json::Object(
                map![
                    "status"@ => Json::Bool(animation.single_frame.status),
                    "frame_value"@ => whole(animation.single_frame.frame_value),
                ],
            ),
        ],
    )
}

/// How a scene is rendered, as the database keeps it.
pub open spec fn blender_json(settings: BlenderState) -> Json {
    Json::Object(
        map![
            "engine"@ => Json::Text(settings.engine@),
            "animation_sequence"@ => animation_json(settings.animation_sequence),
            "cycle_device"@ => Json::Text(settings.cycle_device@),
            "parallel"@ => Json::Object(
                map![
                    "enabled"@ => Json::Bool(settings.parallel.enabled),
                    "process_count"@ => Json::Unsigned(settings.parallel.process_count as u64),
                    "distribution"@ => Json::Text(settings.parallel.distribution@),
                ],
            ),
        ],
    )
}

/// The state as the database keeps it.
pub open spec fn state_json(state: AppState) -> Json {
    Json::Object(
        map![
            "password"@ => Json::Object(
                map![
                    "is_protected"@ => Json::Bool(state.password.is_protected),
                    "key"@ => Json::Text(state.password.key@),
                ],
            ),
            "blend_file"@ => blend_file_json(
                state.blend_file.is_present,
                state.blend_file.file_name@,
            ),
            "blender_settings"@ => blender_json(state.blender_settings),
            "render_status"@ => Json::Object(
                map!["is_rendering"@ => Json::Bool(state.is_rendering)],
            ),
            "latest_preview_image"@ => Json::Text(state.latest_preview_image@),
            "rendered_image_list"@ => Json::Array(
                texts(state.rendered_image_list@).map_values(|s: Seq<char>| Json::Text(s)),
            ),
            "anime_query"@ => Json::Text(state.anime_query@),
            "engine_query"@ => Json::Text(state.engine_query@),
            "render_stats"@ => Json::Text(state.render_stats@),
            "gpu_count"@ => Json::Unsigned(state.gpu_count as u64),
            "parallel_status"@ => board_json(
                state.parallel_status@.map_values(|status: ProcessStatus| status@),
            ),
        ],
    )
}

fn blend_file_document(is_present: bool, file_name: &str) -> (res: Value)
    ensures
        json_of(res) == blend_file_json(is_present, file_name@),
{
    let mut res = empty_object();
    set_member(&mut res, "is_present", bool_value(is_present));
    set_member(&mut res, "file_name", text_value(file_name));
    res
}

fn animation_document(animation: &AnimationState) -> (res: Value)
    ensures
        json_of(res) == animation_json(*animation),
{
    let mut range = empty_object();
    set_member(&mut range, "status", bool_value(animation.range.status));
    set_member(&mut range, "start_frame", integer_value(animation.range.start_frame));
    set_member(&mut range, "end_frame", integer_value(animation.range.end_frame));
    let mut single = empty_object();
    set_member(&mut single, "status", bool_value(animation.single_frame.status));
    set_member(&mut single, "frame_value", integer_value(animation.single_frame.frame_value));
    let mut res = empty_object();
    set_member(&mut res, "entire", bool_value(animation.entire));
    set_member(&mut res, "range", range);
    set_member(&mut res, "single_frame", single);
    res
}

fn blender_document(settings: &BlenderState) -> (res: Value)
    ensures
        json_of(res) == blender_json(*settings),
{
    let mut parallel = empty_object();
    set_member(&mut parallel, "enabled", bool_value(settings.parallel.enabled));
    set_member(
        &mut parallel,
        "process_count",
        number_value(settings.parallel.process_count as u64),
    );
    set_member(
        &mut parallel,
        "distribution",
        text_value(settings.parallel.distribution.as_str()),
    );
    let mut res = empty_object();
    set_member(&mut res, "engine", text_value(settings.engine.as_str()));
    set_member(
        &mut res,
        "animation_sequence",
        animation_document(&settings.animation_sequence),
    );
    set_member(&mut res, "cycle_device", text_value(settings.cycle_device.as_str()));
    set_member(&mut res, "parallel", parallel);
    res
}

fn text_list_document(list: &Vec<String>) -> (res: Value)
    ensures
        json_of(res) == Json::Array(texts(list@).map_values(|s: Seq<char>| Json::Text(s))),
{
    let mut items: Vec<Value> = Vec::new();
    let mut i: usize = 0;
    while i < list.len()
        invariant
            i <= list@.len(),
            items@.len() == i,
            forall|k: int| 0 <= k < i ==> json_of(#[trigger] items@[k]) == Json::Text(list@[k]@),
        decreases list@.len() - i,
    {
        items.push(text_value(list[i].as_str()));
        i = i + 1;
    }
    assert(items@.map_values(|item: Value| json_of(item)) =~= texts(list@).map_values(
        |s: Seq<char>| Json::Text(s),
    ));
    array_value(items)
}

/// Writes the state as a document.
pub fn state_document(state: &AppState) -> (res: Value)
    ensures
        json_of(res) == state_json(*state),
{
    let mut password = empty_object();
    set_member(&mut password, "is_protected", bool_value(state.password.is_protected));
    set_member(&mut password, "key", text_value(state.password.key.as_str()));
    let mut render_status = empty_object();
    set_member(&mut render_status, "is_rendering", bool_value(state.is_rendering));
    let blend_file = blend_file_document(
        state.blend_file.is_present,
        state.blend_file.file_name.as_str(),
    );
    let mut res = empty_object();
    set_member(&mut res, "password", password);
    set_member(&mut res, "blend_file", blend_file);
    set_member(&mut res, "blender_settings", blender_document(&state.blender_settings));
    set_member(&mut res, "render_status", render_status);
    set_member(
        &mut res,
        "latest_preview_image",
        text_value(state.latest_preview_image.as_str()),
    );
    set_member(
        &mut res,
        "rendered_image_list",
        text_list_document(&state.rendered_image_list),
    );
    set_member(&mut res, "anime_query", text_value(state.anime_query.as_str()));
    set_member(&mut res, "engine_query", text_value(state.engine_query.as_str()));
    set_member(&mut res, "render_stats", text_value(state.render_stats.as_str()));
    set_member(&mut res, "gpu_count", number_value(state.gpu_count as u64));
    set_member(&mut res, "parallel_status", board_document(&state.parallel_status));
    res
}

/// What stands in a document at the path `$.parallel_status[index].field`.
pub open spec fn status_field_at(document: Json, index: int, field: Seq<char>) -> Option<Json> {
    match member(document, "parallel_status"@) {
        Some(Json::Array(items)) => if 0 <= index < items.len() {
            member(items[index], field)
        } else {
            None
        },
        _ => None,
    }
}

/// What an object holds under a key.
pub open spec fn member(document: Json, key: Seq<char>) -> Option<Json> {
    match document {
        Json::Object(members) => if members.contains_key(key) {
            Some(members[key])
        } else {
            None
        },
        _ => None,
    }
}

/// The paths by which statuses are updated lead to the fields that the stored
/// state has: state, latest line and retries of each process.
pub proof fn paths_lead_to_the_stored_status(state: AppState, index: int)
    requires
        0 <= index < state.parallel_status@.len(),
    ensures
        ({
            let status = state.parallel_status@[index]@;
            let document = state_json(state);
            &&& status_field_at(document, index, "state"@) == Some(
                Json::Text(state_name(status.state)),
            )
            &&& status_field_at(document, index, "render_stats"@) == Some(
                Json::Text(status.render_stats),
            )
            &&& status_field_at(document, index, "retries"@) == Some(
                Json::Unsigned(status.retries as u64),
            )
        }),
{
    lemma_status_fields();
    let board = state.parallel_status@.map_values(|status: ProcessStatus| status@);
    let items = board.map_values(|status: StatusView| status_json(status));
    assert(items[index] == status_json(state.parallel_status@[index]@));
    assert(state_json(state)->Object_0["parallel_status"@] == Json::Array(items));
}

/// Which scene is recorded.
#[derive(Debug, PartialEq)]
pub struct BlendFileRecord {
    pub is_present: bool,
    pub file_name: Option<String>,
}

/// `name` is the first of the names in alphabetical order.
pub open spec fn is_first(name: Seq<char>, names: Seq<Seq<char>>) -> bool {
    names.contains(name) && forall|i: int|
        0 <= i < names.len() ==> !precedes(#[trigger] names[i], name)
}

/// Which scene is recorded does not depend on the order in which, or how
/// often, the scenes are listed.
pub proof fn selection_is_deterministic(
    a: Seq<char>,
    names_a: Seq<Seq<char>>,
    b: Seq<char>,
    names_b: Seq<Seq<char>>,
)
    requires
        forall|name: Seq<char>| names_a.contains(name) <==> names_b.contains(name),
        is_first(a, names_a),
        is_first(b, names_b),
    ensures
        a == b,
{
    precedes_total(a, b);
    assert(names_b.contains(a));
    assert(names_a.contains(b));
}

/// The paths of the scenes with forward slashes.
pub open spec fn scene_names(paths: Seq<Seq<char>>) -> Seq<Seq<char>> {
    paths.map_values(|path: Seq<char>| slashed(path))
}

/// Records the scene that comes first in alphabetical order among those that
/// were found.
pub fn blend_file_record(paths: &Vec<String>) -> (res: BlendFileRecord)
    ensures
        match res.file_name {
            Some(name) => is_first(name@, scene_names(texts(paths@))) && res.is_present == (
            name@.len() > 0),
            None => paths@.len() == 0 && !res.is_present,
        },
{
    let ghost names = scene_names(texts(paths@));
    if paths.len() == 0 {
        return BlendFileRecord { is_present: false, file_name: None };
    }
    let mut first = forward_slashes(paths[0].as_str());
    assert(names[0] == first@);
    let mut i: usize = 1;
    proof {
        precedes_irreflexive(first@);
    }
    while i < paths.len()
        invariant
            1 <= i <= paths@.len(),
            names == scene_names(texts(paths@)),
            names.contains(first@),
            forall|k: int| 0 <= k < i ==> !precedes(#[trigger] names[k], first@),
        decreases paths@.len() - i,
    {
        let name = forward_slashes(paths[i].as_str());
        assert(names[i as int] == name@);
        if comes_before(name.as_str(), first.as_str()) {
            proof {
                precedes_irreflexive(name@);
                assert forall|k: int| 0 <= k < i + 1 implies !precedes(
                    #[trigger] names[k],
                    name@,
                ) by {
                    if k < i && precedes(names[k], name@) {
                        precedes_transitive(names[k], name@, first@);
                    }
                }
            }
            first = name;
        }
        i = i + 1;
    }
    let is_present = !first.as_str().is_empty();
    BlendFileRecord { is_present, file_name: Some(first) }
}

/// A record as it is merged into the state.
pub open spec fn record_json(is_present: bool, file_name: Option<Seq<char>>) -> Json {
    Json::Object(
        map![
            "blend_file"@ => Json::Object(
                map![
                    "is_present"@ => Json::Bool(is_present),
                    "file_name"@ => match file_name {
                        Some(name) => Json::Text(name),
                        None => Json::Null,
                    },
                ],
            ),
        ],
    )
}

/// Writes a record as a document, to be merged into the state.
pub fn record_document(record: &BlendFileRecord) -> (res: Value)
    ensures
        json_of(res) == record_json(
            record.is_present,
            match record.file_name {
                Some(name) => Some(name@),
                None => None,
            },
        ),
{
    let file_name = match &record.file_name {
        Some(name) => text_value(name.as_str()),
        None => null_value(),
    };
    let mut blend_file = empty_object();
    set_member(&mut blend_file, "is_present", bool_value(record.is_present));
    set_member(&mut blend_file, "file_name", file_name);
    let mut res = empty_object();
    set_member(&mut res, "blend_file", blend_file);
    res
}

/// The version of Blender: the first line that it prints when it is asked for
/// it; none where it prints nothing.
pub fn blender_version(stdout: &[u8]) -> (res: Option<String>)
    ensures
        ({
            let printed = lines_of(lossy_text(stdout@));
            match res {
                Some(version) => printed.len() > 0 && version@ == printed[0],
                None => printed.len() == 0,
            }
        }),
{
    let text = decode_lossy(stdout);
    first_line(text.as_str())
}

/// The first line of a text; none where the text is empty.
pub fn first_line(text: &str) -> (res: Option<String>)
    ensures
        match res {
            Some(line) => lines_of(text@).len() > 0 && line@ == lines_of(text@)[0],
            None => lines_of(text@).len() == 0,
        },
{
    let found = lines(text);
    assert(texts(found@).len() == found@.len());
    if found.len() == 0 {
        None
    } else {
        assert(texts(found@)[0] == found@[0]@);
        Some(found[0].clone())
    }
}

/// The number of GPUs; none where they cannot be counted.
pub fn gpu_count(detected: Option<u32>) -> (res: u32)
    ensures
        res == (match detected {
            Some(count) => count,
            None => 0,
        }),
{
    detected.unwrap_or(0)
}

/// What the database gave when it was asked for the state.
#[derive(Debug, PartialEq)]
pub enum DbFetch {
    /// There was no connection.
    Unreachable,
    /// There was no state.
    Missing,
    /// The state as a JSON text.
    Text(String),
}

/// What a client gets that asked for the state.
pub enum DbContent {
    /// A message.
    Message(String),
    /// The state.
    Document(Value),
}

/// What a client is told that asked for the state.
pub struct DbReply {
    pub status: Status,
    pub content: DbContent,
}

/// The reply is bad news with this text.
pub open spec fn is_message(reply: DbReply, status: Status, text: Seq<char>) -> bool {
    &&& reply.status == status
    &&& reply.content matches DbContent::Message(message)
    &&& message@ == text
}

/// The reply is this state.
pub open spec fn is_document(reply: DbReply, state: Json) -> bool {
    &&& reply.status == Status::Success
    &&& reply.content matches DbContent::Document(value)
    &&& json_of(value) == state
}

fn message(status: Status, text: &str) -> (res: DbReply)
    ensures
        is_message(res, status, text@),
{
    DbReply { status, content: DbContent::Message(text.to_owned()) }
}

/// Answers with the parsed state, or says that it is no JSON text.
pub fn parsed_reply(parsed: Result<Value, String>) -> (res: DbReply)
    ensures
        match parsed {
            Ok(value) => res.status == Status::Success && res.content == DbContent::Document(value),
            Err(_) => is_message(res, Status::InternalServerError, "JSON parse error"@),
        },
{
    match parsed {
        Ok(value) => DbReply { status: Status::Success, content: DbContent::Document(value) },
        Err(_) => message(Status::InternalServerError, "JSON parse error"),
    }
}

/// Answers a client that asked for the state.
pub fn get_db_reply(fetched: DbFetch) -> (res: DbReply)
    ensures
        match fetched {
            DbFetch::Unreachable => is_message(
                res,
                Status::InternalServerError,
                "Redis connection error. Please try again"@,
            ),
            DbFetch::Missing => is_message(
                res,
                Status::NotFound,
                "Key not found or Redis error"@,
            ),
            DbFetch::Text(text) => match json_parse(text@) {
                Ok(state) => is_document(res, state),
                Err(_) => is_message(res, Status::InternalServerError, "JSON parse error"@),
            },
        },
{
    match fetched {
        DbFetch::Unreachable => message(
            Status::InternalServerError,
            "Redis connection error. Please try again",
        ),
        DbFetch::Missing => message(Status::NotFound, "Key not found or Redis error"),
        DbFetch::Text(text) => parsed_reply(read_document(text.as_str())),
    }
}

/// Takes the status of the processes out of what the database gives for its
/// path: an array whose first item it is. None where there is no such thing.
pub fn status_payload(raw: &str) -> (res: Option<Value>)
    ensures
        match json_parse(raw@) {
            Ok(Json::Array(items)) => match res {
                Some(status) => items.len() > 0 && json_of(status) == items[0],
                None => items.len() == 0,
            },
            _ => res is None,
        },
{
    match read_document(raw) {
        Ok(document) => match array_items(document) {
            Some(items) => first_item(items),
            None => None,
        },
        Err(_) => None,
    }
}

/// The first of the items.
pub fn first_item(items: Vec<Value>) -> (res: Option<Value>)
    ensures
        res == (if items@.len() > 0 {
            Some(items@[0])
        } else {
            None
        }),
{
    let mut rest = items;
    if rest.len() > 0 {
        Some(rest.remove(0))
    } else {
        None
    }
}

/// The scene that is recorded is one of those found, and every other comes
/// behind it in alphabetical order.
pub proof fn recorded_scene_comes_first(name: Seq<char>, names: Seq<Seq<char>>, i: int)
    requires
        is_first(name, names),
        0 <= i < names.len(),
    ensures
        exists|k: int| 0 <= k < names.len() && #[trigger] names[k] == name,
        names[i] == name || precedes(name, names[i]),
{
    precedes_total(name, names[i]);
    let k = names.index_of(name);
    assert(names[k] == name);
}

/// A scene is recorded under its path with forward slashes.
pub proof fn scenes_are_recorded_by_their_paths(paths: Seq<Seq<char>>, i: int)
    requires
        0 <= i < paths.len(),
    ensures
        scene_names(paths).len() == paths.len(),
        scene_names(paths)[i] == slashed(paths[i]),
{
}

/// What a reply with a message, and one with the state, is.
pub proof fn replies_have_a_message_or_the_state(
    reply: DbReply,
    status: Status,
    text: Seq<char>,
    state: Json,
)
    ensures
        is_message(reply, status, text) ==> reply.status == status && match reply.content {
            DbContent::Message(message) => message@ == text,
            DbContent::Document(_) => false,
        },
        is_document(reply, state) ==> reply.status == Status::Success && match reply.content {
            DbContent::Message(_) => false,
            DbContent::Document(value) => json_of(value) == state,
        },
{
}

/// A record has whether there is a scene, and its name, or null where there is
/// none.
pub proof fn members_of_a_record(is_present: bool, file_name: Option<Seq<char>>)
    ensures
        ({
            let record = record_json(is_present, file_name)->Object_0;
            let file = record["blend_file"@]->Object_0;
            &&& record_json(is_present, file_name) is Object
            &&& record.contains_key("blend_file"@)
            &&& record["blend_file"@] is Object
            &&& file.contains_key("is_present"@)
            &&& file.contains_key("file_name"@)
            &&& file["is_present"@] == Json::Bool(is_present)
            &&& match file_name {
                Some(name) => file["file_name"@] == Json::Text(name),
                None => file["file_name"@] == Json::Null,
            }
        }),
{
    reveal_strlit("is_present");
    reveal_strlit("file_name");
    assert("is_present"@.len() == 10 && "file_name"@.len() == 9);
}

/// The stored settings say how the scene is rendered, each under its name.
pub proof fn members_of_the_settings(settings: BlenderState)
    ensures
        ({
            let stored = blender_json(settings)->Object_0;
            let animation = stored["animation_sequence"@]->Object_0;
            let range = animation["range"@]->Object_0;
            let single = animation["single_frame"@]->Object_0;
            let parallel = stored["parallel"@]->Object_0;
            let sequence = settings.animation_sequence;
            &&& blender_json(settings) is Object
            &&& stored["animation_sequence"@] is Object
            &&& animation["range"@] is Object
            &&& animation["single_frame"@] is Object
            &&& stored["parallel"@] is Object
            &&& stored["engine"@] == Json::Text(settings.engine@)
            &&& stored["cycle_device"@] == Json::Text(settings.cycle_device@)
            &&& animation["entire"@] == Json::Bool(sequence.entire)
            &&& range["status"@] == Json::Bool(sequence.range.status)
            &&& range["start_frame"@] == whole(sequence.range.start_frame)
            &&& range["end_frame"@] == whole(sequence.range.end_frame)
            &&& single["status"@] == Json::Bool(sequence.single_frame.status)
            &&& single["frame_value"@] == whole(sequence.single_frame.frame_value)
            &&& parallel["enabled"@] == Json::Bool(settings.parallel.enabled)
            &&& parallel["process_count"@] == Json::Unsigned(
                settings.parallel.process_count as u64,
            )
            &&& parallel["distribution"@] == Json::Text(settings.parallel.distribution@)
        }),
{
    reveal_strlit("engine");
    reveal_strlit("animation_sequence");
    reveal_strlit("cycle_device");
    reveal_strlit("parallel");
    reveal_strlit("entire");
    reveal_strlit("range");
    reveal_strlit("single_frame");
    reveal_strlit("status");
    reveal_strlit("start_frame");
    reveal_strlit("end_frame");
    reveal_strlit("frame_value");
    reveal_strlit("enabled");
    reveal_strlit("process_count");
    reveal_strlit("distribution");
    assert("engine"@.len() == 6 && "animation_sequence"@.len() == 18 && "cycle_device"@.len() == 12
        && "parallel"@.len() == 8);
    assert("entire"@.len() == 6 && "range"@.len() == 5 && "single_frame"@.len() == 12);
    assert("status"@.len() == 6 && "start_frame"@.len() == 11 && "end_frame"@.len() == 9
        && "frame_value"@.len() == 11);
    assert("enabled"@.len() == 7 && "process_count"@.len() == 13 && "distribution"@.len() == 12);
}

/// The stored state has every part of the state, each under its name.
pub proof fn members_of_the_state(state: AppState)
    ensures
        ({
            let stored = state_json(state)->Object_0;
            let password = stored["password"@]->Object_0;
            let file = stored["blend_file"@]->Object_0;
            let rendering = stored["render_status"@]->Object_0;
            &&& state_json(state) is Object
            &&& stored["password"@] is Object
            &&& stored["blend_file"@] is Object
            &&& stored["render_status"@] is Object
            &&& password["is_protected"@] == Json::Bool(state.password.is_protected)
            &&& password["key"@] == Json::Text(state.password.key@)
            &&& file["is_present"@] == Json::Bool(state.blend_file.is_present)
            &&& file["file_name"@] == Json::Text(state.blend_file.file_name@)
            &&& stored["blender_settings"@] == blender_json(state.blender_settings)
            &&& rendering["is_rendering"@] == Json::Bool(state.is_rendering)
            &&& stored["latest_preview_image"@] == Json::Text(state.latest_preview_image@)
            &&& stored["rendered_image_list"@] == Json::Array(
                Seq::new(
                    state.rendered_image_list@.len(),
                    |i: int| Json::Text(state.rendered_image_list@[i]@),
                ),
            )
            &&& stored["anime_query"@] == Json::Text(state.anime_query@)
            &&& stored["engine_query"@] == Json::Text(state.engine_query@)
            &&& stored["render_stats"@] == Json::Text(state.render_stats@)
            &&& stored["gpu_count"@] == Json::Unsigned(state.gpu_count as u64)
            &&& stored["parallel_status"@] == board_json(
                Seq::new(
                    state.parallel_status@.len(),
                    |i: int| state.parallel_status@[i]@,
                ),
            )
        }),
{
    reveal_strlit("password");
    reveal_strlit("is_protected");
    reveal_strlit("key");
    reveal_strlit("blend_file");
    reveal_strlit("is_present");
    reveal_strlit("file_name");
    reveal_strlit("blender_settings");
    reveal_strlit("render_status");
    reveal_strlit("latest_preview_image");
    reveal_strlit("rendered_image_list");
    reveal_strlit("anime_query");
    reveal_strlit("engine_query");
    reveal_strlit("render_stats");
    reveal_strlit("gpu_count");
    reveal_strlit("parallel_status");
    assert("is_protected"@.len() == 12 && "key"@.len() == 3);
    assert("is_present"@.len() == 10 && "file_name"@.len() == 9);
    assert("password"@.len() == 8 && "blend_file"@.len() == 10 && "blender_settings"@.len() == 16
        && "render_status"@.len() == 13 && "latest_preview_image"@.len() == 20
        && "rendered_image_list"@.len() == 19 && "anime_query"@.len() == 11 && "engine_query"@.len()
        == 12 && "render_stats"@.len() == 12 && "gpu_count"@.len() == 9 && "parallel_status"@.len()
        == 15);
    assert("engine_query"@[0] == 'e' && "render_stats"@[0] == 'r');
    assert(texts(state.rendered_image_list@).map_values(|s: Seq<char>| Json::Text(s)) =~= Seq::new(
        state.rendered_image_list@.len(),
        |i: int| Json::Text(state.rendered_image_list@[i]@),
    ));
    assert(state.parallel_status@.map_values(|status: ProcessStatus| status@) =~= Seq::new(
        state.parallel_status@.len(),
        |i: int| state.parallel_status@[i]@,
    ));
}

} // verus!
