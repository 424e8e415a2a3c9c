use blend_render::chunks::{
    chunk_file_name, is_upload_file, session_file_name, session_text, Assembly,
};
use blend_render::reply::{Reply, Status};
use blend_render::upload::{StepOutcome, Upload, UploadForm, UploadStep};
use std::collections::BTreeMap;

struct Disk {
    chunks: BTreeMap<String, Vec<u8>>,
    uploaded: BTreeMap<String, Vec<u8>>,
    recorded: Option<String>,
    assembled: u32,
}

fn perform(disk: &mut Disk, upload: &Upload, bytes: &[u8]) -> StepOutcome {
    let id = &upload.form.file_id;
    match &upload.step {
        UploadStep::DropChunksThenBegin
        | UploadStep::DropChunksThenAnswer(_)
        | UploadStep::CloseSession
        | UploadStep::CloseSessionThenAnswer(_) => {
            disk.chunks.retain(|name, _| !is_upload_file(name, id));
        }
        UploadStep::FindBlendFiles => {
            let scenes = disk.uploaded.keys().filter(|name| name.ends_with(".blend"));
            return StepOutcome::Names(scenes.cloned().collect());
        }
        UploadStep::CreateSession => {
            let text = session_text(&upload.safe_name, upload.form.total_chunks, 7);
            disk.chunks.insert(session_file_name(id), text.into_bytes());
        }
        UploadStep::ReadSession => {
            return match disk.chunks.get(&session_file_name(id)) {
                Some(text) => StepOutcome::Session(String::from_utf8(text.clone()).unwrap()),
                None => StepOutcome::NoSession,
            }
        }
        UploadStep::WriteChunk => {
            disk.chunks.insert(chunk_file_name(id, upload.form.chunk_index), bytes.to_vec());
        }
        UploadStep::ListChunks => {
            return StepOutcome::Names(disk.chunks.keys().rev().cloned().collect())
        }
        UploadStep::Assemble => {
            disk.assembled += 1;
            let mut content = Vec::new();
            let mut assembly = Assembly::new(id, upload.form.total_chunks);
            while let Some(name) = assembly.next_chunk() {
                match disk.chunks.get(&name) {
                    Some(bytes) => content.extend_from_slice(bytes),
                    None => {
                        disk.uploaded.insert(upload.safe_name.clone(), content);
                        return StepOutcome::Failed("no such file".to_string());
                    }
                }
            }
            disk.uploaded.insert(upload.safe_name.clone(), content);
        }
        UploadStep::RecordBlendFile(name) => disk.recorded = Some(name.clone()),
        _ => {}
    }
    StepOutcome::Done
}

fn serve(disk: &mut Disk, file_id: &str, index: u32, total: u32, bytes: &[u8]) -> Reply {
    let mut upload = Upload::new(UploadForm {
        chunk_index: index,
        total_chunks: total,
        file_name: "dir/scene.blend".to_string(),
        file_id: file_id.to_string(),
    });
    loop {
        let outcome = perform(disk, &upload, bytes);
        upload = upload.advance(outcome);
        if let UploadStep::Answer(reply) = upload.step {
            return reply;
        }
    }
}

fn disk() -> Disk {
    let mut chunks = BTreeMap::new();
    for name in ["id_3", "id_session.json", "other_0", "\u{4e16}_9"] {
        chunks.insert(name.to_string(), b"old".to_vec());
    }
    Disk { chunks, uploaded: BTreeMap::new(), recorded: None, assembled: 0 }
}

#[test]
fn chunks_arrive_in_any_order() {
    let parts: [&[u8]; 4] = [b"one", b"", b"three", b"four"];
    for id in ["id", "\u{4e16}"] {
        for order in [[0, 1, 2, 3], [0, 3, 1, 2], [0, 2, 3, 1]] {
            let mut disk = disk();
            for (k, index) in order.iter().enumerate() {
                let reply = serve(&mut disk, id, *index, 4, parts[*index as usize]);
                if k < 3 {
                    let body = format!("Chunk {} of 4 received", index + 1);
                    assert_eq!(reply, Reply { status: Status::Accepted, body });
                    assert_eq!(disk.assembled, 0);
                    assert_eq!(disk.recorded, None);
                } else {
                    let body = "Blend file uploaded successfully".to_string();
                    assert_eq!(reply, Reply { status: Status::Success, body });
                }
            }
            assert_eq!(disk.assembled, 1);
            assert_eq!(disk.uploaded["dirscene.blend"], b"onethreefour");
            assert_eq!(disk.recorded, Some("dirscene.blend".to_string()));
            assert!(!disk.chunks.keys().any(|name| is_upload_file(name, id)));
            assert!(disk.chunks.contains_key("other_0"));
        }
    }
}

#[test]
fn single_chunk_is_a_whole_upload() {
    let mut disk = disk();
    let reply = serve(&mut disk, "id", 0, 1, b"all");
    assert_eq!(reply.status, Status::Success);
    assert_eq!(disk.uploaded["dirscene.blend"], b"all");
}

#[test]
fn chunk_of_another_upload_is_refused() {
    let mut disk = disk();
    assert_eq!(serve(&mut disk, "id", 0, 3, b"one").status, Status::Accepted);
    assert_eq!(serve(&mut disk, "id", 1, 4, b"two").status, Status::BadRequest);
    assert_eq!(serve(&mut disk, "new", 1, 3, b"two").status, Status::BadRequest);
}

#[test]
fn missing_chunk_leaves_a_part() {
    let mut disk = disk();
    assert_eq!(serve(&mut disk, "id", 0, 2, b"one").status, Status::Accepted);
    let reply = serve(&mut disk, "id", 5, 2, b"six");
    let body = "Failed to assemble chunks: no such file".to_string();
    assert_eq!(reply, Reply { status: Status::InternalServerError, body });
    assert_eq!(disk.uploaded["dirscene.blend"], b"one");
    assert_eq!(disk.recorded, None);
    assert!(!disk.chunks.keys().any(|name| is_upload_file(name, "id")));
    assert_eq!(serve(&mut disk, "new", 0, 1, b"all").status, Status::BadRequest);
    assert_eq!(disk.uploaded["dirscene.blend"], b"one");
}

#[test]
fn complete_scene_stands_in_the_way() {
    let mut disk = disk();
    assert_eq!(serve(&mut disk, "id", 0, 1, b"all").status, Status::Success);
    let reply = serve(&mut disk, "new", 0, 1, b"other");
    let body = "Blend file already exists. Try deleting it before uploading.".to_string();
    assert_eq!(reply, Reply { status: Status::BadRequest, body });
    assert_eq!(disk.uploaded["dirscene.blend"], b"all");
}
