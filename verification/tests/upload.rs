use blend_render::reply::{Reply, Status};
use blend_render::upload::{
    is_blend_or_zip_file, session_checked, FileKind, StepOutcome, Upload, UploadForm, UploadStep,
};

fn upload(file_name: &str, chunk_index: u32, total_chunks: u32) -> Upload {
    Upload::new(UploadForm {
        chunk_index,
        total_chunks,
        file_name: file_name.to_string(),
        file_id: "id".to_string(),
    })
}

fn names(list: &[&str]) -> StepOutcome {
    StepOutcome::Names(list.iter().map(|s| s.to_string()).collect())
}

fn failed() -> StepOutcome {
    StepOutcome::Failed("disk full".to_string())
}

fn answer(status: Status, body: &str) -> Reply {
    Reply { status, body: body.to_string() }
}

fn failure(body: &str) -> Reply {
    answer(Status::InternalServerError, body)
}

fn run(start: Upload, outcomes: Vec<StepOutcome>) -> UploadStep {
    let mut upload = start;
    for outcome in outcomes {
        upload = upload.advance(outcome);
    }
    upload.step
}

const DONE: StepOutcome = StepOutcome::Done;

#[test]
fn kinds_of_files() {
    assert_eq!(FileKind::of("a.blend"), FileKind::Blend);
    assert_eq!(FileKind::of("a.BLend"), FileKind::Blend);
    assert_eq!(FileKind::of("a.blend.ZIP"), FileKind::Zip);
    assert_eq!(FileKind::of("a.blend1"), FileKind::Unsupported);
    assert_eq!(FileKind::of("blend"), FileKind::Unsupported);
    assert_eq!(FileKind::of(".zip"), FileKind::Zip);
}

#[test]
fn accepted_names() {
    for name in ["a.blend", "A.BLEND", "x.y.zip", "x.ZiP", ".blend", "\u{e9}.zip"] {
        assert!(is_blend_or_zip_file(name));
        assert!(FileKind::of(name) != FileKind::Unsupported);
    }
    for name in ["", "blend", "a.blend ", "a.zip\n", "a.zipx", "a.z\u{130}p", "a.blen\u{131}d"] {
        assert!(!is_blend_or_zip_file(name));
        assert_eq!(FileKind::of(name), FileKind::Unsupported);
    }
}

#[test]
fn name_is_cleaned() {
    assert_eq!(upload("../../et\\c/a:b?.blend", 0, 1).safe_name, "....etcab.blend");
    assert_eq!(upload("..", 0, 1).safe_name, "");
    assert_eq!(upload("plain.blend", 0, 1).safe_name, "plain.blend");
    assert_eq!(upload("/.?./", 0, 1).safe_name, "");
    assert_eq!(upload("....", 0, 1).safe_name, "");
    assert_eq!(upload("..a", 0, 1).safe_name, "..a");
    assert_eq!(upload("a\u{7f}\u{85}\tb", 0, 1).safe_name, "a\u{7f}b");
    assert_eq!(upload(&"a".repeat(300), 0, 1).safe_name, "a".repeat(255));
    assert_eq!(upload(&"\u{e9}".repeat(200), 0, 1).safe_name, "\u{e9}".repeat(127));
    assert_eq!(upload(&".".repeat(300), 0, 1).safe_name, "");
    assert_eq!(upload(&format!("{}x", ".".repeat(300)), 0, 1).safe_name, ".".repeat(255));
}

#[test]
fn directories_come_first() {
    assert_eq!(run(upload("a.blend", 0, 1), vec![]), UploadStep::EnsureUploadDir);
    assert_eq!(
        run(upload("a.blend", 0, 1), vec![failed()]),
        UploadStep::Answer(failure("Failed to create upload directory. Error : disk full"))
    );
    assert_eq!(run(upload("a.blend", 0, 1), vec![DONE]), UploadStep::EnsureChunksDir);
    assert_eq!(
        run(upload("a.blend", 0, 1), vec![DONE, failed()]),
        UploadStep::Answer(failure("Failed to create chunks directory. Error : disk full"))
    );
}

#[test]
fn other_files_are_refused() {
    let refusal = answer(
        Status::UnsupportedMediaType,
        "We only accept .blend or .zip file. Please try again",
    );
    let cleanup = run(upload("a.txt", 0, 1), vec![DONE, DONE]);
    assert_eq!(cleanup, UploadStep::DropChunksThenAnswer(refusal));
    let end = run(upload("a.txt", 3, 1), vec![DONE, DONE, DONE]);
    assert!(matches!(end, UploadStep::Answer(reply) if reply.status == Status::UnsupportedMediaType));
}

#[test]
fn first_chunk_begins_anew() {
    assert_eq!(run(upload("a.blend", 0, 2), vec![DONE, DONE]), UploadStep::DropChunksThenBegin);
    assert_eq!(run(upload("a.blend", 0, 2), vec![DONE, DONE, DONE]), UploadStep::FindBlendFiles);
    assert_eq!(
        run(upload("a.blend", 0, 2), vec![DONE, DONE, DONE, names(&["old.blend"])]),
        UploadStep::Answer(answer(
            Status::BadRequest,
            "Blend file already exists. Try deleting it before uploading.",
        ))
    );
    assert_eq!(
        run(upload("a.blend", 0, 2), vec![DONE, DONE, DONE, names(&[])]),
        UploadStep::CreateSession
    );
    assert_eq!(
        run(upload("a.blend", 0, 2), vec![DONE, DONE, DONE, names(&[]), failed()]),
        UploadStep::Answer(failure("Failed to create upload session: disk full"))
    );
    assert_eq!(
        run(upload("a.blend", 0, 2), vec![DONE, DONE, DONE, names(&[]), DONE]),
        UploadStep::ReadChunk
    );
}

#[test]
fn later_chunk_needs_its_session() {
    let refusal = UploadStep::Answer(answer(
        Status::BadRequest,
        "Upload session not found or invalid. Please restart upload.",
    ));
    let session = |text: &str| StepOutcome::Session(text.to_string());
    let later = |outcome: StepOutcome| run(upload("a.blend", 1, 2), vec![DONE, DONE, outcome]);
    assert_eq!(run(upload("a.blend", 1, 2), vec![DONE, DONE]), UploadStep::ReadSession);
    assert_eq!(later(StepOutcome::NoSession), refusal);
    assert_eq!(
        later(session("{\"file_name\":\"a.blend\",\"total_chunks\":3}")),
        refusal
    );
    assert_eq!(
        later(session("{\"file_name\":\"a.blend\",\"total_chunks\":2,\"created_at\":1}")),
        UploadStep::ReadChunk
    );
    assert_eq!(
        later(failed()),
        UploadStep::DropChunksThenAnswer(failure("Failed to validate upload session: disk full"))
    );
    assert_eq!(
        later(session("nonsense")),
        UploadStep::DropChunksThenAnswer(failure(
            "Failed to validate upload session: expected ident at line 1 column 2",
        ))
    );
}

#[test]
fn session_check_decides() {
    assert_eq!(session_checked(Ok(true)), UploadStep::ReadChunk);
    assert!(matches!(session_checked(Ok(false)), UploadStep::Answer(_)));
    assert_eq!(
        session_checked(Err("x".to_string())),
        UploadStep::DropChunksThenAnswer(failure("Failed to validate upload session: x"))
    );
}

fn saved(file_name: &str, chunk_index: u32, total_chunks: u32, more: Vec<StepOutcome>) -> UploadStep {
    let mut outcomes = vec![DONE, DONE, DONE, names(&[]), DONE];
    outcomes.extend(more);
    run(upload(file_name, chunk_index, total_chunks), outcomes)
}

#[test]
fn chunk_that_cannot_be_saved_is_cleaned_up() {
    assert_eq!(
        saved("a.blend", 0, 2, vec![failed()]),
        UploadStep::DropChunksThenAnswer(failure("Failed to read chunk data: disk full"))
    );
    assert_eq!(saved("a.blend", 0, 2, vec![DONE]), UploadStep::WriteChunk);
    assert_eq!(
        saved("a.blend", 0, 2, vec![DONE, failed()]),
        UploadStep::DropChunksThenAnswer(failure("Failed to save chunk: disk full"))
    );
    assert_eq!(saved("a.blend", 0, 2, vec![DONE, DONE]), UploadStep::ListChunks);
}

#[test]
fn more_chunks_are_awaited() {
    assert_eq!(
        saved("a.blend", 0, 2, vec![DONE, DONE, names(&["id_0", "id_session.json"])]),
        UploadStep::Answer(answer(Status::Accepted, "Chunk 1 of 2 received"))
    );
}

#[test]
fn complete_blend_file_is_recorded() {
    let all = || names(&["id_0", "id_session.json"]);
    assert_eq!(saved("a.blend", 0, 1, vec![DONE, DONE, all()]), UploadStep::Assemble);
    assert_eq!(
        saved("a.blend", 0, 1, vec![DONE, DONE, all(), failed()]),
        UploadStep::CloseSessionThenAnswer(failure("Failed to assemble chunks: disk full"))
    );
    assert_eq!(
        saved("a.blend", 0, 1, vec![DONE, DONE, all(), failed(), DONE]),
        UploadStep::Answer(failure("Failed to assemble chunks: disk full"))
    );
    assert_eq!(saved("a.blend", 0, 1, vec![DONE, DONE, all(), DONE]), UploadStep::CloseSession);
    assert_eq!(
        saved("a/b.blend", 0, 1, vec![DONE, DONE, all(), DONE, DONE]),
        UploadStep::RecordBlendFile("ab.blend".to_string())
    );
    assert_eq!(
        saved("a.blend", 0, 1, vec![DONE, DONE, all(), DONE, DONE, failed()]),
        UploadStep::Answer(failure("Failed to update Redis: disk full"))
    );
    assert_eq!(
        saved("a.blend", 0, 1, vec![DONE, DONE, all(), DONE, DONE, DONE]),
        UploadStep::Answer(answer(Status::Success, "Blend file uploaded successfully"))
    );
}

fn unzipped(more: Vec<StepOutcome>) -> UploadStep {
    let mut outcomes = vec![DONE, DONE, names(&["id_0"]), DONE, DONE];
    outcomes.extend(more);
    saved("a.zip", 0, 1, outcomes)
}

#[test]
fn complete_archive_is_unpacked() {
    assert_eq!(unzipped(vec![]), UploadStep::Unzip);
    assert_eq!(unzipped(vec![DONE]), UploadStep::RemoveArchive);
    assert_eq!(unzipped(vec![DONE, DONE]), UploadStep::FindExtractedFiles);
    assert_eq!(
        unzipped(vec![DONE, DONE, names(&["sub\\b.blend", "a.blend"])]),
        UploadStep::RecordBlendFile("sub/b.blend".to_string())
    );
    assert_eq!(
        unzipped(vec![DONE, DONE, names(&["sub\\b.blend", "a.blend"]), DONE]),
        UploadStep::Answer(answer(
            Status::Success,
            "Zip file uploaded and extracted successfully. Blend file: sub/b.blend",
        ))
    );
}

#[test]
fn archive_that_fails() {
    assert_eq!(
        unzipped(vec![failed()]),
        UploadStep::RemoveFileThenAnswer(failure("Failed to extract zip file: disk full"))
    );
    assert_eq!(
        unzipped(vec![failed(), DONE]),
        UploadStep::Answer(failure("Failed to extract zip file: disk full"))
    );
    assert_eq!(
        unzipped(vec![DONE, failed()]),
        UploadStep::Answer(failure("Failed to delete zip file after extraction: disk full"))
    );
    let empty = unzipped(vec![DONE, DONE, names(&[])]);
    assert!(matches!(empty, UploadStep::Answer(reply) if reply.status == Status::BadRequest
        && reply.body.starts_with("No .blend file found in the uploaded zip archive.")));
}
