//! Uploading a scene. A client sends a `.blend` file, or a `.zip` archive
//! that holds one, in chunks, one request for each. `Upload` decides, request
//! by request, what is to be done on the disk and what the client is told.
use crate::chunks::{chunk_total, count_chunks_for_file, session_admits, validate_session};
use crate::decimal::{decimal, u64_text};
use crate::json::json_parse;
use crate::reply::{Reply, ReplyView, Status, answer, reply, reply_with};
use crate::text::{
    ending_letter_by_letter, ends_ignoring_case, forward_slashes, has_ending, slashed, texts,
};
use regex::Regex;
use vstd::prelude::*;
use vstd::string::*;
use vstd::utf8::{encode_scalar, encode_utf8};

verus! {

/// The two kinds of file that can be uploaded, and all others.
#[derive(Clone, Copy, Debug, PartialEq, Eq, Structural)]
pub enum FileKind {
    Blend,
    Zip,
    Unsupported,
}

/// The kind of a file, by the ending of its name.
pub open spec fn kind_of(name: Seq<char>) -> FileKind {
    if ends_ignoring_case(name, ".blend"@) {
        FileKind::Blend
    } else if ends_ignoring_case(name, ".zip"@) {
        FileKind::Zip
    } else {
        FileKind::Unsupported
    }
}

impl FileKind {
    /// The kind of a file, by the ending of its name.
    pub fn of(name: &str) -> (res: FileKind)
        ensures
            res == kind_of(name@),
    {
        if has_ending(name, ".blend") {
            FileKind::Blend
        } else if has_ending(name, ".zip") {
            FileKind::Zip
        } else {
            FileKind::Unsupported
        }
    }
}

/// `regex::Regex::new` and `Regex::is_match` with the pattern for the two
/// endings: a match is a name that ends with one of them, in small or capital
/// letters. (No letter of theirs has a case variant outside ASCII, and `$`
/// stands for the very end of the text.) The pattern is a valid one, so that
/// `new` does not fail.
#[verifier::external_body]
fn matches_pattern(pattern: &str, text: &str) -> (res: bool)
    requires
        pattern@ == r"(?i)\.(?:blend|zip)$"@,
    ensures
        res == (ends_ignoring_case(text@, ".blend"@) || ends_ignoring_case(text@, ".zip"@)),
{
    Regex::new(pattern).unwrap().is_match(text)
}

/// Tests whether a file can be uploaded, by the ending of its name.
pub fn is_blend_or_zip_file(file_name: &str) -> (res: bool)
    ensures
        res == (kind_of(file_name@) != FileKind::Unsupported),
{
    matches_pattern(r"(?i)\.(?:blend|zip)$", file_name)
}

/// A character that has no place in a file name: a separator, a wildcard, a
/// quote or a control character.
pub open spec fn forbidden_in_name(c: char) -> bool {
    ||| c == '/' || c == '\\' || c == '?' || c == '<' || c == '>'
    ||| c == ':' || c == '*' || c == '|' || c == '"'
    ||| c <= '\u{1f}'
    ||| '\u{80}' <= c <= '\u{9f}'
}

/// A name that stays inside the directory that it is joined to.
pub open spec fn is_plain_name(name: Seq<char>) -> bool {
    &&& forall|i: int| 0 <= i < name.len() ==> !forbidden_in_name(#[trigger] name[i])
    &&& name != seq!['.']
    &&& name != seq!['.', '.']
}

/// The longest prefix of a text that takes no more than so many bytes in UTF-8.
pub open spec fn prefix_within(s: Seq<char>, bytes: nat) -> Seq<char>
    decreases s.len(),
{
    if s.len() == 0 || encode_utf8(s).len() <= bytes {
        s
    } else {
        prefix_within(s.drop_last(), bytes)
    }
}

/// A name with the characters dropped that have no place in it; nothing but
/// dots is no name, and what is over 255 bytes is cut off.
pub open spec fn sanitized(name: Seq<char>) -> Seq<char> {
    let kept = name.filter(|c: char| !forbidden_in_name(c));
    if forall|i: int| 0 <= i < kept.len() ==> #[trigger] kept[i] == '.' {
        Seq::empty()
    } else {
        prefix_within(kept, 255)
    }
}

proof fn lemma_encoded_len(s: Seq<char>)
    ensures
        encode_utf8(s).len() <= 4 * s.len(),
    decreases s.len(),
{
    if s.len() > 0 {
        assert(encode_scalar(s[0] as u32).len() <= 4);
        lemma_encoded_len(s.drop_first());
    }
}

proof fn lemma_prefix_within(s: Seq<char>, bytes: nat)
    ensures
        ({
            let cut = prefix_within(s, bytes);
            &&& cut.len() <= s.len()
            &&& cut == s.take(cut.len() as int)
            &&& cut == s || encode_utf8(s.take(cut.len() as int + 1)).len() > bytes
        }),
    decreases s.len(),
{
    if s.len() == 0 || encode_utf8(s).len() <= bytes {
        assert(s.take(s.len() as int) =~= s);
    } else {
        let rest = s.drop_last();
        let cut = prefix_within(rest, bytes);
        lemma_prefix_within(rest, bytes);
        assert(rest.take(cut.len() as int) =~= s.take(cut.len() as int));
        if cut == rest {
            assert(s.take(cut.len() as int + 1) =~= s);
        } else {
            assert(rest.take(cut.len() as int + 1) =~= s.take(cut.len() as int + 1));
        }
    }
}

/// A cleaned name stays inside the directory that it is joined to.
pub proof fn sanitized_name_is_plain(name: Seq<char>)
    ensures
        is_plain_name(sanitized(name)),
        encode_utf8(sanitized(name)).len() <= 255,
{
    let fine = |c: char| !forbidden_in_name(c);
    let kept = name.filter(fine);
    let cut = prefix_within(kept, 255);
    lemma_prefix_within(kept, 255);
    lemma_within(kept, 255);
    assert forall|i: int| 0 <= i < cut.len() implies !forbidden_in_name(#[trigger] cut[i]) by {
        name.lemma_filter_pred(fine, i);
        assert(cut[i] == kept[i]);
    }
    if cut != kept && cut.len() <= 2 {
        lemma_encoded_len(kept.take(cut.len() as int + 1));
    }
}

proof fn lemma_within(s: Seq<char>, bytes: nat)
    ensures
        encode_utf8(prefix_within(s, bytes)).len() <= bytes,
    decreases s.len(),
{
    if s.len() > 0 && encode_utf8(s).len() > bytes {
        lemma_within(s.drop_last(), bytes);
    }
}

/// `sanitize_filename::sanitize` (on Unix, where this crate runs) cleans a
/// file name: it drops the characters that have no place in one, makes a name
/// of dots only empty, and keeps the longest prefix of at most 255 bytes.
#[verifier::external_body]
fn sanitize(name: &str) -> (res: String)
    ensures
        res@ == sanitized(name@),
{
    sanitize_filename::sanitize(name)
}

/// What a request tells of the chunk that it brings.
#[derive(Debug, PartialEq)]
pub struct UploadForm {
    pub chunk_index: u32,
    pub total_chunks: u32,
    pub file_name: String,
    pub file_id: String,
}

/// What is to be done next for a request.
#[derive(Debug, PartialEq)]
pub enum UploadStep {
    /// Create the upload directory if there is none.
    EnsureUploadDir,
    /// Create the directory of chunks if there is none.
    EnsureChunksDir,
    /// Remove the files of the upload, then begin it anew.
    DropChunksThenBegin,
    /// Remove the files of the upload, then answer.
    DropChunksThenAnswer(Reply),
    /// List the scenes that are there already.
    FindBlendFiles,
    /// Write the session of the upload.
    CreateSession,
    /// Read the session of the upload.
    ReadSession,
    /// Read the chunk that came with the request.
    ReadChunk,
    /// Save that chunk.
    WriteChunk,
    /// List the directory of chunks.
    ListChunks,
    /// Put the chunks together.
    Assemble,
    /// Remove session and chunks, then go on with the file.
    CloseSession,
    /// Remove session and chunks, then answer.
    CloseSessionThenAnswer(Reply),
    /// Unpack the archive.
    Unzip,
    /// Remove the archive.
    RemoveArchive,
    /// Remove the uploaded file, whether or not this works, then answer.
    RemoveFileThenAnswer(Reply),
    /// List the scenes that came out of the archive.
    FindExtractedFiles,
    /// Record in the database which scene is present.
    RecordBlendFile(String),
    /// Tell the client.
    Answer(Reply),
}

/// How a step went.
#[derive(Debug, PartialEq)]
pub enum StepOutcome {
    /// It was done.
    Done,
    /// It failed, with this message.
    Failed(String),
    /// The names that were asked for.
    Names(Vec<String>),
    /// There is no session.
    NoSession,
    /// The text of the session.
    Session(String),
}

/// What an `UploadStep` says.
pub enum StepView {
    EnsureUploadDir,
    EnsureChunksDir,
    DropChunksThenBegin,
    DropChunksThenAnswer(ReplyView),
    FindBlendFiles,
    CreateSession,
    ReadSession,
    ReadChunk,
    WriteChunk,
    ListChunks,
    Assemble,
    CloseSession,
    CloseSessionThenAnswer(ReplyView),
    Unzip,
    RemoveArchive,
    RemoveFileThenAnswer(ReplyView),
    FindExtractedFiles,
    RecordBlendFile(Seq<char>),
    Answer(ReplyView),
}

impl View for UploadStep {
    type V = StepView;

    open spec fn view(&self) -> StepView {
        match *self {
            UploadStep::EnsureUploadDir => StepView::EnsureUploadDir,
            UploadStep::EnsureChunksDir => StepView::EnsureChunksDir,
            UploadStep::DropChunksThenBegin => StepView::DropChunksThenBegin,
            UploadStep::DropChunksThenAnswer(reply) => StepView::DropChunksThenAnswer(reply@),
            UploadStep::FindBlendFiles => StepView::FindBlendFiles,
            UploadStep::CreateSession => StepView::CreateSession,
            UploadStep::ReadSession => StepView::ReadSession,
            UploadStep::ReadChunk => StepView::ReadChunk,
            UploadStep::WriteChunk => StepView::WriteChunk,
            UploadStep::ListChunks => StepView::ListChunks,
            UploadStep::Assemble => StepView::Assemble,
            UploadStep::CloseSession => StepView::CloseSession,
            UploadStep::CloseSessionThenAnswer(reply) => StepView::CloseSessionThenAnswer(reply@),
            UploadStep::Unzip => StepView::Unzip,
            UploadStep::RemoveArchive => StepView::RemoveArchive,
            UploadStep::RemoveFileThenAnswer(reply) => StepView::RemoveFileThenAnswer(reply@),
            UploadStep::FindExtractedFiles => StepView::FindExtractedFiles,
            UploadStep::RecordBlendFile(name) => StepView::RecordBlendFile(name@),
            UploadStep::Answer(reply) => StepView::Answer(reply@),
        }
    }
}

/// What a `StepOutcome` says.
pub enum OutcomeView {
    Done,
    Failed(Seq<char>),
    Names(Seq<Seq<char>>),
    NoSession,
    Session(Seq<char>),
}

impl View for StepOutcome {
    type V = OutcomeView;

    open spec fn view(&self) -> OutcomeView {
        match *self {
            StepOutcome::Done => OutcomeView::Done,
            StepOutcome::Failed(message) => OutcomeView::Failed(message@),
            StepOutcome::Names(names) => OutcomeView::Names(texts(names@)),
            StepOutcome::NoSession => OutcomeView::NoSession,
            StepOutcome::Session(text) => OutcomeView::Session(text@),
        }
    }
}

/// The outcomes that a step can have.
pub open spec fn possible(step: StepView, outcome: OutcomeView) -> bool {
    match step {
        StepView::EnsureUploadDir | StepView::EnsureChunksDir | StepView::CreateSession
        | StepView::ReadChunk | StepView::WriteChunk | StepView::Assemble | StepView::Unzip
        | StepView::RemoveArchive | StepView::RecordBlendFile(
            _,
        ) => outcome is Done || outcome is Failed,
        StepView::FindBlendFiles | StepView::ListChunks
        | StepView::FindExtractedFiles => outcome is Names,
        StepView::ReadSession => outcome is NoSession || outcome is Session || outcome is Failed,
        StepView::DropChunksThenBegin | StepView::DropChunksThenAnswer(_) | StepView::CloseSession
        | StepView::CloseSessionThenAnswer(_) | StepView::RemoveFileThenAnswer(
            _,
        ) => outcome is Done,
        StepView::Answer(_) => false,
    }
}

/// The answer to an internal failure.
pub open spec fn failure(what: Seq<char>, message: Seq<char>) -> ReplyView {
    answer(Status::InternalServerError, what + message)
}

/// The answer to a request that cannot be granted.
pub open spec fn refusal(body: Seq<char>) -> ReplyView {
    answer(Status::BadRequest, body)
}

/// The step that follows once a chunk has been checked against its session.
pub open spec fn after_session_check(
    checked: Result<bool, Seq<char>>,
) -> StepView {
    match checked {
        Ok(true) => StepView::ReadChunk,
        Ok(false) => StepView::Answer(
            refusal("Upload session not found or invalid. Please restart upload."@),
        ),
        Err(message) => StepView::DropChunksThenAnswer(
            failure("Failed to validate upload session: "@, message),
        ),
    }
}

/// The step that follows a step that had a (possible) outcome. `name` is the
/// clean name of the file.
pub open spec fn next_step(
    form: UploadForm,
    name: Seq<char>,
    step: StepView,
    outcome: OutcomeView,
) -> StepView {
    match (step, outcome) {
        (StepView::EnsureUploadDir, OutcomeView::Failed(message)) => StepView::Answer(
            failure("Failed to create upload directory. Error : "@, message),
        ),
        (StepView::EnsureUploadDir, _) => StepView::EnsureChunksDir,
        (StepView::EnsureChunksDir, OutcomeView::Failed(message)) => StepView::Answer(
            failure("Failed to create chunks directory. Error : "@, message),
        ),
        (StepView::EnsureChunksDir, _) => if kind_of(name) == FileKind::Unsupported {
            StepView::DropChunksThenAnswer(
                answer(
                    Status::UnsupportedMediaType,
                    "We only accept .blend or .zip file. Please try again"@,
                ),
            )
        } else if form.chunk_index == 0 {
            StepView::DropChunksThenBegin
        } else {
            StepView::ReadSession
        },
        (StepView::DropChunksThenBegin, _) => StepView::FindBlendFiles,
        (StepView::DropChunksThenAnswer(reply), _) => StepView::Answer(reply),
        (StepView::FindBlendFiles, OutcomeView::Names(files)) => if files.len() == 0 {
            StepView::CreateSession
        } else {
            StepView::Answer(
                refusal("Blend file already exists. Try deleting it before uploading."@),
            )
        },
        (StepView::CreateSession, OutcomeView::Failed(message)) => StepView::Answer(
            failure("Failed to create upload session: "@, message),
        ),
        (StepView::CreateSession, _) => StepView::ReadChunk,
        (StepView::ReadSession, OutcomeView::Failed(message)) => after_session_check(Err(message)),
        (StepView::ReadSession, OutcomeView::Session(text)) => after_session_check(
            match json_parse(text) {
                Ok(session) => Ok(session_admits(session, name, form.total_chunks)),
                Err(message) => Err(message),
            },
        ),
        (StepView::ReadSession, _) => after_session_check(Ok(false)),
        (StepView::ReadChunk, OutcomeView::Failed(message)) => StepView::DropChunksThenAnswer(
            failure("Failed to read chunk data: "@, message),
        ),
        (StepView::ReadChunk, _) => StepView::WriteChunk,
        (StepView::WriteChunk, OutcomeView::Failed(message)) => StepView::DropChunksThenAnswer(
            failure("Failed to save chunk: "@, message),
        ),
        (StepView::WriteChunk, _) => StepView::ListChunks,
        (StepView::ListChunks, OutcomeView::Names(names)) => if all_received(form, names) {
            StepView::Assemble
        } else {
            StepView::Answer(
                answer(
                    Status::Accepted,
                    "Chunk "@ + decimal(form.chunk_index + 1) + " of "@ + decimal(
                        form.total_chunks as int,
                    ) + " received"@,
                ),
            )
        },
        (StepView::Assemble, OutcomeView::Failed(message)) => StepView::CloseSessionThenAnswer(
            failure("Failed to assemble chunks: "@, message),
        ),
        (StepView::Assemble, _) => StepView::CloseSession,
        (StepView::CloseSession, _) => match kind_of(name) {
            FileKind::Blend => StepView::RecordBlendFile(name),
            FileKind::Zip => StepView::Unzip,
            FileKind::Unsupported => StepView::RemoveFileThenAnswer(
                answer(Status::UnsupportedMediaType, "Unsupported file type"@),
            ),
        },
        (StepView::CloseSessionThenAnswer(reply), _) => StepView::Answer(reply),
        (StepView::Unzip, OutcomeView::Failed(message)) => StepView::RemoveFileThenAnswer(
            failure("Failed to extract zip file: "@, message),
        ),
        (StepView::Unzip, _) => StepView::RemoveArchive,
        (StepView::RemoveArchive, OutcomeView::Failed(message)) => StepView::Answer(
            failure("Failed to delete zip file after extraction: "@, message),
        ),
        (StepView::RemoveArchive, _) => StepView::FindExtractedFiles,
        (StepView::RemoveFileThenAnswer(reply), _) => StepView::Answer(reply),
        (StepView::FindExtractedFiles, OutcomeView::Names(files)) => if files.len() == 0 {
            StepView::Answer(
                refusal(
                    "No .blend file found in the uploaded zip archive. Please include a .blend file."@,
                ),
            )
        } else {
            StepView::RecordBlendFile(slashed(files[0]))
        },
        (StepView::RecordBlendFile(_), OutcomeView::Failed(message)) => StepView::Answer(
            failure("Failed to update Redis: "@, message),
        ),
        (StepView::RecordBlendFile(file), _) => StepView::Answer(
            answer(
                Status::Success,
                if kind_of(name) == FileKind::Blend {
                    "Blend file uploaded successfully"@
                } else {
                    "Zip file uploaded and extracted successfully. Blend file: "@ + file
                },
            ),
        ),
        _ => step,
    }
}

/// The directory of chunks holds as many chunks as the upload has.
pub open spec fn all_received(form: UploadForm, names: Seq<Seq<char>>) -> bool {
    chunk_total(names, form.file_id@) as u32 == form.total_chunks
}

/// Decides how to go on once a chunk has been checked against its session.
pub fn session_checked(checked: Result<bool, String>) -> (res: UploadStep)
    ensures
        res@ == after_session_check(
            match checked {
                Ok(valid) => Ok(valid),
                Err(message) => Err(message@),
            },
        ),
{
    match checked {
        Ok(true) => UploadStep::ReadChunk,
        Ok(false) => UploadStep::Answer(
            reply(
                Status::BadRequest,
                "Upload session not found or invalid. Please restart upload.",
            ),
        ),
        Err(message) => UploadStep::DropChunksThenAnswer(
            reply_with(
                Status::InternalServerError,
                "Failed to validate upload session: ",
                message.as_str(),
            ),
        ),
    }
}

/// A request on its way: what it told, the clean name of the file, and what
/// is to be done next.
pub struct Upload {
    pub form: UploadForm,
    pub safe_name: String,
    pub step: UploadStep,
}

impl Upload {
    /// The name is clean, and the request is where it can be.
    pub open spec fn wf(&self) -> bool {
        &&& is_plain_name(self.safe_name@)
        &&& step_in_order(self.form, self.safe_name@, self.step@)
    }

    /// Takes a request.
    pub fn new(form: UploadForm) -> (res: Upload)
        ensures
            res.wf(),
            res.form == form,
            res.safe_name@ == sanitized(form.file_name@),
            res.step@ == StepView::EnsureUploadDir,
    {
        let safe_name = sanitize(form.file_name.as_str());
        proof {
            sanitized_name_is_plain(form.file_name@);
        }
        Upload { form, safe_name, step: UploadStep::EnsureUploadDir }
    }

    /// Goes on to the next step. (The answer that more chunks are awaited
    /// counts chunks from one, so the last `u32` has no such answer.)
    #[verifier::spinoff_prover]
    #[verifier::rlimit(40)]
    pub fn advance(self, outcome: StepOutcome) -> (res: Upload)
        requires
            self.wf(),
            possible(self.step@, outcome@),
            self.step is ListChunks && !all_received(self.form, texts(outcome->Names_0@))
                ==> self.form.chunk_index < u32::MAX,
        ensures
            res.wf(),
            res.form == self.form,
            res.safe_name == self.safe_name,
            res.step@ == next_step(self.form, self.safe_name@, self.step@, outcome@),
    {
        proof {
            requests_stay_in_order(self.form, self.safe_name@, self.step@, outcome@);
        }
        let Upload { form, safe_name, step } = self;
        let failed = Status::InternalServerError;
        let next = match (step, outcome) {
            (UploadStep::EnsureUploadDir, StepOutcome::Failed(message)) => UploadStep::Answer(
                reply_with(failed, "Failed to create upload directory. Error : ", message.as_str()),
            ),
            (UploadStep::EnsureUploadDir, _) => UploadStep::EnsureChunksDir,
            (UploadStep::EnsureChunksDir, StepOutcome::Failed(message)) => UploadStep::Answer(
                reply_with(failed, "Failed to create chunks directory. Error : ", message.as_str()),
            ),
            (UploadStep::EnsureChunksDir, _) => if !is_blend_or_zip_file(safe_name.as_str()) {
                UploadStep::DropChunksThenAnswer(
                    reply(
                        Status::UnsupportedMediaType,
                        "We only accept .blend or .zip file. Please try again",
                    ),
                )
            } else if form.chunk_index == 0 {
                UploadStep::DropChunksThenBegin
            } else {
                UploadStep::ReadSession
            },
            (UploadStep::DropChunksThenBegin, _) => UploadStep::FindBlendFiles,
            (UploadStep::DropChunksThenAnswer(reply), _) => UploadStep::Answer(reply),
            (UploadStep::FindBlendFiles, StepOutcome::Names(files)) => if files.len() == 0 {
                UploadStep::CreateSession
            } else {
                UploadStep::Answer(
                    reply(
                        Status::BadRequest,
                        "Blend file already exists. Try deleting it before uploading.",
                    ),
                )
            },
            (UploadStep::CreateSession, StepOutcome::Failed(message)) => UploadStep::Answer(
                reply_with(failed, "Failed to create upload session: ", message.as_str()),
            ),
            (UploadStep::CreateSession, _) => UploadStep::ReadChunk,
            (UploadStep::ReadSession, StepOutcome::Failed(message)) => session_checked(
                Err(message),
            ),
            (UploadStep::ReadSession, StepOutcome::Session(text)) => session_checked(
                validate_session(text.as_str(), safe_name.as_str(), form.total_chunks),
            ),
            (UploadStep::ReadSession, _) => session_checked(Ok(false)),
            (
                UploadStep::ReadChunk,
                StepOutcome::Failed(message),
            ) => UploadStep::DropChunksThenAnswer(
                reply_with(failed, "Failed to read chunk data: ", message.as_str()),
            ),
            (UploadStep::ReadChunk, _) => UploadStep::WriteChunk,
            (
                UploadStep::WriteChunk,
                StepOutcome::Failed(message),
            ) => UploadStep::DropChunksThenAnswer(
                reply_with(failed, "Failed to save chunk: ", message.as_str()),
            ),
            (UploadStep::WriteChunk, _) => UploadStep::ListChunks,
            (UploadStep::ListChunks, StepOutcome::Names(names)) => {
                let received: u32 = count_chunks_for_file(&names, form.file_id.as_str());
                if received == form.total_chunks {
                    UploadStep::Assemble
                } else {
                    UploadStep::Answer(awaiting_more(form.chunk_index, form.total_chunks))
                }
            },
            (
                UploadStep::Assemble,
                StepOutcome::Failed(message),
            ) => UploadStep::CloseSessionThenAnswer(
                reply_with(failed, "Failed to assemble chunks: ", message.as_str()),
            ),
            (UploadStep::Assemble, _) => UploadStep::CloseSession,
            (UploadStep::CloseSession, _) => match FileKind::of(safe_name.as_str()) {
                FileKind::Blend => UploadStep::RecordBlendFile(safe_name.clone()),
                FileKind::Zip => UploadStep::Unzip,
                FileKind::Unsupported => UploadStep::RemoveFileThenAnswer(
                    reply(Status::UnsupportedMediaType, "Unsupported file type"),
                ),
            },
            (UploadStep::CloseSessionThenAnswer(reply), _) => UploadStep::Answer(reply),
            (
                UploadStep::Unzip,
                StepOutcome::Failed(message),
            ) => UploadStep::RemoveFileThenAnswer(
                reply_with(failed, "Failed to extract zip file: ", message.as_str()),
            ),
            (UploadStep::Unzip, _) => UploadStep::RemoveArchive,
            (UploadStep::RemoveArchive, StepOutcome::Failed(message)) => UploadStep::Answer(
                reply_with(
                    failed,
                    "Failed to delete zip file after extraction: ",
                    message.as_str(),
                ),
            ),
            (UploadStep::RemoveArchive, _) => UploadStep::FindExtractedFiles,
            (UploadStep::RemoveFileThenAnswer(reply), _) => UploadStep::Answer(reply),
            (UploadStep::FindExtractedFiles, StepOutcome::Names(files)) => if files.len() == 0 {
                UploadStep::Answer(
                    reply(
                        Status::BadRequest,
                        "No .blend file found in the uploaded zip archive. Please include a .blend file.",
                    ),
                )
            } else {
                UploadStep::RecordBlendFile(forward_slashes(files[0].as_str()))
            },
            (UploadStep::RecordBlendFile(_), StepOutcome::Failed(message)) => UploadStep::Answer(
                reply_with(failed, "Failed to update Redis: ", message.as_str()),
            ),
            (UploadStep::RecordBlendFile(file), _) => UploadStep::Answer(
                if is_blend(FileKind::of(safe_name.as_str())) {
                    reply(Status::Success, "Blend file uploaded successfully")
                } else {
                    reply_with(
                        Status::Success,
                        "Zip file uploaded and extracted successfully. Blend file: ",
                        file.as_str(),
                    )
                },
            ),
            (step, _) => step,
        };
        Upload { form, safe_name, step: next }
    }
}

fn is_blend(kind: FileKind) -> (res: bool)
    ensures
        res == (kind == FileKind::Blend),
{
    match kind {
        FileKind::Blend => true,
        _ => false,
    }
}

/// The answer to a chunk after which more are to come.
fn awaiting_more(chunk_index: u32, total_chunks: u32) -> (res: Reply)
    requires
        chunk_index < u32::MAX,
    ensures
        res@ == answer(
            Status::Accepted,
            "Chunk "@ + decimal(chunk_index + 1) + " of "@ + decimal(total_chunks as int)
                + " received"@,
        ),
{
    let number = u64_text((chunk_index + 1) as u64);
    let total = u64_text(total_chunks as u64);
    let body = "Chunk ".to_owned().concat(number.as_str()).concat(" of ").concat(
        total.as_str(),
    ).concat(" received");
    Reply { status: Status::Accepted, body }
}

/// Where a request can be: beyond the two directories only with a file that
/// can be uploaded, on the way of the first chunk only with the first chunk,
/// on that of a later chunk only with a later one, and on the way of an
/// archive only with an archive. Cleaning up comes before bad news only.
pub open spec fn step_in_order(form: UploadForm, name: Seq<char>, step: StepView) -> bool {
    match step {
        StepView::EnsureUploadDir | StepView::EnsureChunksDir | StepView::Answer(_) => true,
        StepView::DropChunksThenAnswer(reply) => reply.status == Status::InternalServerError
            || reply.status == Status::UnsupportedMediaType,
        StepView::CloseSessionThenAnswer(reply) => reply.status == Status::InternalServerError,
        StepView::DropChunksThenBegin | StepView::FindBlendFiles
        | StepView::CreateSession => kind_of(name) != FileKind::Unsupported && form.chunk_index
            == 0,
        StepView::ReadSession => kind_of(name) != FileKind::Unsupported && form.chunk_index != 0,
        StepView::Unzip | StepView::RemoveArchive | StepView::FindExtractedFiles => kind_of(name)
            == FileKind::Zip,
        StepView::RemoveFileThenAnswer(reply) => kind_of(name) == FileKind::Zip && reply.status
            == Status::InternalServerError,
        StepView::RecordBlendFile(file) => match kind_of(name) {
            FileKind::Blend => file == name,
            FileKind::Zip => true,
            FileKind::Unsupported => false,
        },
        _ => kind_of(name) != FileKind::Unsupported,
    }
}

/// A request never leaves the order of its steps, whatever their outcome.
pub proof fn requests_stay_in_order(
    form: UploadForm,
    name: Seq<char>,
    step: StepView,
    outcome: OutcomeView,
)
    requires
        step_in_order(form, name, step),
        possible(step, outcome),
    ensures
        step_in_order(form, name, next_step(form, name, step, outcome)),
{
}

/// A bound on the steps that are left before the client is answered.
pub open spec fn steps_left(step: StepView) -> nat {
    match step {
        StepView::EnsureUploadDir => 14,
        StepView::EnsureChunksDir => 13,
        StepView::DropChunksThenBegin => 12,
        StepView::FindBlendFiles => 11,
        StepView::CreateSession => 10,
        StepView::ReadSession => 10,
        StepView::ReadChunk => 9,
        StepView::WriteChunk => 8,
        StepView::ListChunks => 7,
        StepView::Assemble => 6,
        StepView::CloseSession => 5,
        StepView::Unzip => 4,
        StepView::RemoveArchive => 3,
        StepView::FindExtractedFiles => 2,
        StepView::RecordBlendFile(_) => 1,
        StepView::DropChunksThenAnswer(_) => 1,
        StepView::CloseSessionThenAnswer(_) => 1,
        StepView::RemoveFileThenAnswer(_) => 1,
        StepView::Answer(_) => 0,
    }
}

/// Every request is answered: each step brings it nearer to its answer,
/// whatever the outcome, and only an answer has no step behind it.
pub proof fn every_request_is_answered(
    form: UploadForm,
    name: Seq<char>,
    step: StepView,
    outcome: OutcomeView,
)
    ensures
        possible(step, outcome) ==> steps_left(next_step(form, name, step, outcome)) < steps_left(
            step,
        ),
        steps_left(step) == 0 <==> step is Answer,
{
}

/// The client is answered with this status.
pub open spec fn tells(step: StepView, status: Status) -> bool {
    step matches StepView::Answer(reply) && reply.status == status
}

/// A client is told of success only after the scene has been recorded, and
/// that more chunks are awaited only while chunks are missing.
pub proof fn good_news_is_true(
    form: UploadForm,
    name: Seq<char>,
    step: StepView,
    outcome: OutcomeView,
)
    requires
        step_in_order(form, name, step),
        possible(step, outcome),
    ensures
        ({
            let next = next_step(form, name, step, outcome);
            &&& tells(next, Status::Success) ==> step is RecordBlendFile && outcome is Done
            &&& tells(next, Status::Accepted) ==> step is ListChunks && !all_received(
                form,
                outcome->Names_0,
            )
        }),
{
}

/// A file of another kind is never taken: its request ends in a refusal, and
/// what was left of an upload with its id is removed first.
pub proof fn unsupported_file_is_refused(form: UploadForm, name: Seq<char>)
    requires
        kind_of(name) == FileKind::Unsupported,
    ensures
        next_step(form, name, StepView::EnsureUploadDir, OutcomeView::Done)
            == StepView::EnsureChunksDir,
        ({
            let cleanup = next_step(form, name, StepView::EnsureChunksDir, OutcomeView::Done);
            let end = next_step(form, name, cleanup, OutcomeView::Done);
            &&& cleanup is DropChunksThenAnswer
            &&& tells(end, Status::UnsupportedMediaType)
        }),
{
}

/// A chunk that cannot be checked, read or saved leaves no files of its upload
/// in the directory of chunks, nor do chunks that cannot be put together: they
/// are removed before the client is told of the failure. (The file that those
/// were to make stays as far as it got.)
pub proof fn failed_chunk_is_cleaned_up(
    form: UploadForm,
    name: Seq<char>,
    step: StepView,
    message: Seq<char>,
)
    ensures
        step is ReadSession || step is ReadChunk || step is WriteChunk ==> (next_step(
            form,
            name,
            step,
            OutcomeView::Failed(message),
        ) matches StepView::DropChunksThenAnswer(reply) && reply.status
            == Status::InternalServerError),
        step is Assemble ==> (next_step(
            form,
            name,
            step,
            OutcomeView::Failed(message),
        ) matches StepView::CloseSessionThenAnswer(reply) && reply.status
            == Status::InternalServerError),
{
}

/// The step that a request reaches after a row of outcomes.
pub open spec fn run(
    form: UploadForm,
    name: Seq<char>,
    step: StepView,
    outcomes: Seq<OutcomeView>,
) -> StepView
    decreases outcomes.len(),
{
    if outcomes.len() == 0 {
        step
    } else {
        run(form, name, next_step(form, name, step, outcomes[0]), outcomes.drop_first())
    }
}

/// While the upload directory holds a scene, no other upload begins: its
/// first chunk is refused before anything is saved.
pub proof fn second_scene_is_refused(form: UploadForm, name: Seq<char>, files: Seq<Seq<char>>)
    requires
        files.len() > 0,
    ensures
        tells(
            next_step(form, name, StepView::FindBlendFiles, OutcomeView::Names(files)),
            Status::BadRequest,
        ),
{
}

/// The last chunk of a scene, when nothing goes wrong: once it is saved and
/// all chunks are there, they are put together, the scene is recorded under
/// its clean name, and the client is told of success.
pub proof fn complete_scene_is_recorded(form: UploadForm, name: Seq<char>, names: Seq<Seq<char>>)
    requires
        kind_of(name) == FileKind::Blend,
        all_received(form, names),
    ensures
        ({
            let done = OutcomeView::Done;
            let record = run(
                form,
                name,
                StepView::ReadChunk,
                seq![done, done, OutcomeView::Names(names), done, done],
            );
            &&& record == StepView::RecordBlendFile(name)
            &&& next_step(form, name, record, done) == StepView::Answer(
                answer(Status::Success, "Blend file uploaded successfully"@),
            )
        }),
{
    reveal_with_fuel(run, 6);
}

/// The last chunk of an archive, when nothing goes wrong: the archive is
/// unpacked and removed, and the first scene in it is recorded; an archive
/// without a scene is refused.
pub proof fn complete_archive_is_unpacked(
    form: UploadForm,
    name: Seq<char>,
    names: Seq<Seq<char>>,
    scenes: Seq<Seq<char>>,
)
    requires
        kind_of(name) == FileKind::Zip,
        all_received(form, names),
    ensures
        ({
            let done = OutcomeView::Done;
            let last = run(
                form,
                name,
                StepView::ReadChunk,
                seq![
                    done,
                    done,
                    OutcomeView::Names(names),
                    done,
                    done,
                    done,
                    done,
                    OutcomeView::Names(scenes),
                ],
            );
            if scenes.len() == 0 {
                tells(last, Status::BadRequest)
            } else {
                last == StepView::RecordBlendFile(slashed(scenes[0])) && next_step(
                    form,
                    name,
                    last,
                    done,
                ) == StepView::Answer(
                    answer(
                        Status::Success,
                        "Zip file uploaded and extracted successfully. Blend file: "@ + slashed(
                            scenes[0],
                        ),
                    ),
                )
            }
        }),
{
    reveal_with_fuel(run, 9);
}

/// A scene is a file whose name ends with a dot and `blend`, an archive one
/// whose name ends with a dot and `zip`, each letter small or capital; no other
/// file can be uploaded.
pub proof fn endings_of_the_kinds(name: Seq<char>)
    ensures
        ({
            let n = name.len() as int;
            let blend = n >= 6 && name[n - 6] == '.' && (name[n - 5] == 'b' || name[n - 5] == 'B')
                && (name[n - 4] == 'l' || name[n - 4] == 'L') && (name[n - 3] == 'e' || name[n - 3]
                == 'E') && (name[n - 2] == 'n' || name[n - 2] == 'N') && (name[n - 1] == 'd'
                || name[n - 1] == 'D');
            let zip = n >= 4 && name[n - 4] == '.' && (name[n - 3] == 'z' || name[n - 3] == 'Z')
                && (name[n - 2] == 'i' || name[n - 2] == 'I') && (name[n - 1] == 'p' || name[n - 1]
                == 'P');
            &&& kind_of(name) == FileKind::Blend <==> blend
            &&& kind_of(name) == FileKind::Zip <==> zip
            &&& kind_of(name) == FileKind::Unsupported <==> !blend && !zip
        }),
{
    reveal_strlit(".blend");
    reveal_strlit(".zip");
    let blend = ".blend"@;
    let zip = ".zip"@;
    ending_letter_by_letter(name, blend);
    ending_letter_by_letter(name, zip);
    assert(blend.len() == 6 && zip.len() == 4);
    assert(blend[0] == '.' && blend[1] == 'b' && blend[2] == 'l' && blend[3] == 'e' && blend[4]
        == 'n' && blend[5] == 'd');
    assert(zip[0] == '.' && zip[1] == 'z' && zip[2] == 'i' && zip[3] == 'p');
}

/// Every failure is told with its cause: which step failed, and the message
/// that it failed with. What the step left of the upload is removed first
/// where there is something to remove.
pub proof fn failures_are_told_with_their_cause(
    form: UploadForm,
    name: Seq<char>,
    message: Seq<char>,
    file: Seq<char>,
)
    ensures
        ({
            let failed = OutcomeView::Failed(message);
            let told = |what: Seq<char>|
                ReplyView { status: Status::InternalServerError, body: what + message };
            &&& next_step(form, name, StepView::EnsureUploadDir, failed) == StepView::Answer(
                told("Failed to create upload directory. Error : "@),
            )
            &&& next_step(form, name, StepView::EnsureChunksDir, failed) == StepView::Answer(
                told("Failed to create chunks directory. Error : "@),
            )
            &&& next_step(form, name, StepView::CreateSession, failed) == StepView::Answer(
                told("Failed to create upload session: "@),
            )
            &&& next_step(form, name, StepView::ReadSession, failed)
                == StepView::DropChunksThenAnswer(told("Failed to validate upload session: "@))
            &&& next_step(form, name, StepView::ReadChunk, failed)
                == StepView::DropChunksThenAnswer(told("Failed to read chunk data: "@))
            &&& next_step(form, name, StepView::WriteChunk, failed)
                == StepView::DropChunksThenAnswer(told("Failed to save chunk: "@))
            &&& next_step(form, name, StepView::Assemble, failed)
                == StepView::CloseSessionThenAnswer(told("Failed to assemble chunks: "@))
            &&& next_step(form, name, StepView::Unzip, failed) == StepView::RemoveFileThenAnswer(
                told("Failed to extract zip file: "@),
            )
            &&& next_step(form, name, StepView::RemoveArchive, failed) == StepView::Answer(
                told("Failed to delete zip file after extraction: "@),
            )
            &&& next_step(form, name, StepView::RecordBlendFile(file), failed) == StepView::Answer(
                told("Failed to update Redis: "@),
            )
        }),
{
}

/// Cleaning up before an answer changes nothing in the answer.
pub proof fn cleanup_keeps_the_answer(
    form: UploadForm,
    name: Seq<char>,
    reply: ReplyView,
    outcome: OutcomeView,
)
    ensures
        next_step(form, name, StepView::DropChunksThenAnswer(reply), outcome) == StepView::Answer(
            reply,
        ),
        next_step(form, name, StepView::CloseSessionThenAnswer(reply), outcome)
            == StepView::Answer(reply),
        next_step(form, name, StepView::RemoveFileThenAnswer(reply), outcome) == StepView::Answer(
            reply,
        ),
{
}

/// What a request is refused for: a file of another kind, a scene that is
/// there already, a session that is missing, unreadable or of another upload,
/// and an archive without a scene. Nothing of this kind is refused otherwise:
/// a first chunk begins anew, a later one goes to its session, and is read if
/// that session is of the same file and number of chunks.
pub proof fn refusals_have_reasons(
    form: UploadForm,
    name: Seq<char>,
    scenes: Seq<Seq<char>>,
    session: Seq<char>,
)
    ensures
        ({
            let done = OutcomeView::Done;
            let found = OutcomeView::Names(scenes);
            let no_session = StepView::Answer(
                ReplyView {
                    status: Status::BadRequest,
                    body: "Upload session not found or invalid. Please restart upload."@,
                },
            );
            let begun = next_step(form, name, StepView::EnsureChunksDir, done);
            let looked = next_step(form, name, StepView::FindBlendFiles, found);
            let read = next_step(form, name, StepView::ReadSession, OutcomeView::Session(session));
            let unpacked = next_step(form, name, StepView::FindExtractedFiles, found);
            &&& kind_of(name) == FileKind::Unsupported ==> begun == StepView::DropChunksThenAnswer(
                ReplyView {
                    status: Status::UnsupportedMediaType,
                    body: "We only accept .blend or .zip file. Please try again"@,
                },
            )
            &&& kind_of(name) != FileKind::Unsupported && form.chunk_index == 0 ==> begun
                == StepView::DropChunksThenBegin
            &&& kind_of(name) != FileKind::Unsupported && form.chunk_index != 0 ==> begun
                == StepView::ReadSession
            &&& scenes.len() > 0 ==> looked == StepView::Answer(
                ReplyView {
                    status: Status::BadRequest,
                    body: "Blend file already exists. Try deleting it before uploading."@,
                },
            )
            &&& scenes.len() == 0 ==> looked == StepView::CreateSession
            &&& next_step(form, name, StepView::ReadSession, OutcomeView::NoSession) == no_session
            &&& match json_parse(session) {
                Ok(document) => if document.text_at("file_name"@) == Some(name)
                    && document.number_at("total_chunks"@) == Some(form.total_chunks as u64) {
                    read == StepView::ReadChunk
                } else {
                    read == no_session
                },
                Err(message) => read == StepView::DropChunksThenAnswer(
                    ReplyView {
                        status: Status::InternalServerError,
                        body: "Failed to validate upload session: "@ + message,
                    },
                ),
            }
            &&& scenes.len() == 0 ==> unpacked == StepView::Answer(
                ReplyView {
                    status: Status::BadRequest,
                    body: "No .blend file found in the uploaded zip archive. Please include a .blend file."@,
                },
            )
            &&& scenes.len() > 0 ==> unpacked == StepView::RecordBlendFile(slashed(scenes[0]))
        }),
{
}

/// A chunk is saved, and then counted: as long as there are not as many as the
/// upload has, the client is told which one came, counted from one, and of how
/// many; with as many as it has, they are put together, and the chunks and the
/// session go. A scene is recorded under its name, an archive unpacked,
/// removed and searched; success is told by the kind of the file.
pub proof fn chunks_make_a_file(
    form: UploadForm,
    name: Seq<char>,
    names: Seq<Seq<char>>,
    file: Seq<char>,
)
    requires
        chunk_total(names, form.file_id@) <= u32::MAX,
        kind_of(name) != FileKind::Unsupported,
    ensures
        ({
            let done = OutcomeView::Done;
            let next = |step: StepView| next_step(form, name, step, done);
            let counted = next_step(form, name, StepView::ListChunks, OutcomeView::Names(names));
            let is_scene = kind_of(name) == FileKind::Blend;
            &&& next(StepView::EnsureUploadDir) == StepView::EnsureChunksDir
            &&& next(StepView::DropChunksThenBegin) == StepView::FindBlendFiles
            &&& next(StepView::CreateSession) == StepView::ReadChunk
            &&& next(StepView::ReadChunk) == StepView::WriteChunk
            &&& next(StepView::WriteChunk) == StepView::ListChunks
            &&& chunk_total(names, form.file_id@) == form.total_chunks ==> counted
                == StepView::Assemble
            &&& chunk_total(names, form.file_id@) != form.total_chunks ==> counted
                == StepView::Answer(
                ReplyView {
                    status: Status::Accepted,
                    body: "Chunk "@ + decimal(form.chunk_index + 1) + " of "@ + decimal(
                        form.total_chunks as int,
                    ) + " received"@,
                },
            )
            &&& next(StepView::Assemble) == StepView::CloseSession
            &&& is_scene ==> next(StepView::CloseSession) == StepView::RecordBlendFile(name)
            &&& !is_scene ==> next(StepView::CloseSession) == StepView::Unzip
            &&& next(StepView::Unzip) == StepView::RemoveArchive
            &&& next(StepView::RemoveArchive) == StepView::FindExtractedFiles
            &&& next(StepView::RecordBlendFile(file)) == StepView::Answer(
                ReplyView {
                    status: Status::Success,
                    body: if is_scene {
                        "Blend file uploaded successfully"@
                    } else {
                        "Zip file uploaded and extracted successfully. Blend file: "@ + file
                    },
                },
            )
        }),
{
}

/// A step or an outcome in the program says what its view says.
pub proof fn views_keep_what_is_said(reply: Reply, file: String, names: Vec<String>)
    ensures
        UploadStep::Answer(reply)@ == StepView::Answer(reply@),
        UploadStep::DropChunksThenAnswer(reply)@ == StepView::DropChunksThenAnswer(reply@),
        UploadStep::CloseSessionThenAnswer(reply)@ == StepView::CloseSessionThenAnswer(reply@),
        UploadStep::RemoveFileThenAnswer(reply)@ == StepView::RemoveFileThenAnswer(reply@),
        UploadStep::RecordBlendFile(file)@ == StepView::RecordBlendFile(file@),
        UploadStep::EnsureUploadDir@ == StepView::EnsureUploadDir,
        UploadStep::EnsureChunksDir@ == StepView::EnsureChunksDir,
        UploadStep::DropChunksThenBegin@ == StepView::DropChunksThenBegin,
        UploadStep::FindBlendFiles@ == StepView::FindBlendFiles,
        UploadStep::CreateSession@ == StepView::CreateSession,
        UploadStep::ReadSession@ == StepView::ReadSession,
        UploadStep::ReadChunk@ == StepView::ReadChunk,
        UploadStep::WriteChunk@ == StepView::WriteChunk,
        UploadStep::ListChunks@ == StepView::ListChunks,
        UploadStep::Assemble@ == StepView::Assemble,
        UploadStep::CloseSession@ == StepView::CloseSession,
        UploadStep::Unzip@ == StepView::Unzip,
        UploadStep::RemoveArchive@ == StepView::RemoveArchive,
        UploadStep::FindExtractedFiles@ == StepView::FindExtractedFiles,
        StepOutcome::Done@ == OutcomeView::Done,
        StepOutcome::NoSession@ == OutcomeView::NoSession,
        StepOutcome::Failed(file)@ == OutcomeView::Failed(file@),
        StepOutcome::Session(file)@ == OutcomeView::Session(file@),
        StepOutcome::Names(names)@ == OutcomeView::Names(texts(names@)),
{
}

/// A name in which every character has its place, which is not nothing but
/// dots and takes no more than 255 bytes, stays as it is.
pub proof fn good_names_are_kept(name: Seq<char>)
    requires
        forall|i: int| 0 <= i < name.len() ==> !forbidden_in_name(#[trigger] name[i]),
        exists|i: int| 0 <= i < name.len() && #[trigger] name[i] != '.',
        encode_utf8(name).len() <= 255,
    ensures
        sanitized(name) == name,
{
    lemma_nothing_dropped(name);
}

proof fn lemma_nothing_dropped(name: Seq<char>)
    requires
        forall|i: int| 0 <= i < name.len() ==> !forbidden_in_name(#[trigger] name[i]),
    ensures
        name.filter(|c: char| !forbidden_in_name(c)) == name,
    decreases name.len(),
{
    reveal(Seq::filter);
    let fine = |c: char| !forbidden_in_name(c);
    if name.len() > 0 {
        let rest = name.drop_last();
        assert forall|i: int| 0 <= i < rest.len() implies !forbidden_in_name(
            #[trigger] rest[i],
        ) by {
            assert(rest[i] == name[i]);
        }
        lemma_nothing_dropped(rest);
        assert(!forbidden_in_name(name[name.len() - 1]));
        assert(name.filter(fine) =~= name);
    } else {
        assert(name.filter(fine) =~= name);
    }
}

} // verus!
