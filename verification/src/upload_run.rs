//! All the requests of one upload, followed on a disk and a database that do
//! their work: whatever the order in which the chunks arrive, the last of them
//! completes the file.
use crate::blend_search::is_scene_name;
use crate::chunks::{
    belongs_to, chunk_name, chunk_names, chunk_total, chunks_do_not_collide, counts_as_chunk,
    saved_chunk_is_counted, session_is_not_counted, session_name, session_reads_back,
    session_record,
};
use crate::decimal::decimal;
use crate::json::{json_parse, well_formed};
use crate::reply::{Status, answer};
use crate::upload::{
    FileKind, OutcomeView, StepView, UploadForm, every_request_is_answered, kind_of, next_step,
    possible, sanitized, steps_left,
};
use vstd::prelude::*;
use vstd::set_lib::{lemma_int_range, lemma_subset_equality, set_int_range};
use vstd::utf8::{
    decode_utf8, encode_utf8, encode_utf8_decode_utf8, encode_utf8_valid_utf8, valid_utf8,
};

verus! {

/// What an upload finds and leaves.
pub struct Disk {
    /// The files in the directory of chunks.
    pub chunks: Map<Seq<char>, Seq<u8>>,
    /// The files that uploads have put into the upload directory.
    pub uploaded: Map<Seq<char>, Seq<u8>>,
    /// The scenes in and below the upload directory that came there otherwise.
    pub other_scenes: Seq<Seq<char>>,
    /// The scene that the database has on record.
    pub recorded: Option<Seq<char>>,
    /// What the system says of a file that is not there.
    pub no_file: Seq<char>,
    /// What the system says of a file that is no text.
    pub no_text: Seq<char>,
}

/// The uploaded files that are scenes.
pub open spec fn uploaded_scenes(disk: Disk) -> Set<Seq<char>> {
    disk.uploaded.dom().filter(|name: Seq<char>| is_scene_name(name))
}

/// There is no scene in or below the upload directory.
pub open spec fn no_scene(disk: Disk) -> bool {
    &&& disk.other_scenes.len() == 0
    &&& forall|name: Seq<char>| #[trigger]
        disk.uploaded.contains_key(name) ==> !is_scene_name(name)
}

/// The id of an upload is fit to be part of a file name.
pub open spec fn is_plain_id(file_id: Seq<char>) -> bool {
    forall|i: int| 0 <= i < file_id.len() ==> #[trigger] file_id[i] != '/' && file_id[i] != '\0'
}

/// A request with the chunk that it brings.
pub struct Request {
    pub form: UploadForm,
    /// The chunk.
    pub bytes: Seq<u8>,
    /// The text of the session, if the request writes one, and when that is.
    pub session: Seq<char>,
    pub created_at: u64,
    /// The order in which the files of a directory are listed to it.
    pub list: spec_fn(Set<Seq<char>>) -> Seq<Seq<char>>,
}

impl Request {
    /// The clean name of the file.
    pub open spec fn name(self) -> Seq<char> {
        sanitized(self.form.file_name@)
    }
}

/// The content of files, one behind the other.
pub open spec fn contents(files: Map<Seq<char>, Seq<u8>>, names: Seq<Seq<char>>) -> Seq<u8>
    decreases names.len(),
{
    if names.len() == 0 {
        Seq::empty()
    } else {
        contents(files, names.drop_last()) + files[names.last()]
    }
}

/// What is left in the directory of chunks when an upload is cleaned up.
pub open spec fn without_upload(
    chunks: Map<Seq<char>, Seq<u8>>,
    file_id: Seq<char>,
) -> Map<Seq<char>, Seq<u8>> {
    chunks.restrict(Set::new(|name: Seq<char>| !belongs_to(name, file_id)))
}

/// The names of the chunks that a request puts together.
pub open spec fn wanted_chunks(form: UploadForm) -> Seq<Seq<char>> {
    chunk_names(form.file_id@, 0, form.total_chunks as int)
}

/// How many of the files are there before one is missing.
pub open spec fn at_hand(files: Map<Seq<char>, Seq<u8>>, names: Seq<Seq<char>>) -> nat
    decreases names.len(),
{
    if names.len() == 0 || !files.contains_key(names[0]) {
        0
    } else {
        1 + at_hand(files, names.drop_first())
    }
}

/// How a step goes.
pub open spec fn outcome_on(disk: Disk, request: Request, step: StepView) -> OutcomeView {
    let session = session_name(request.form.file_id@);
    let wanted = wanted_chunks(request.form);
    match step {
        StepView::FindBlendFiles | StepView::FindExtractedFiles => OutcomeView::Names(
            disk.other_scenes + (request.list)(uploaded_scenes(disk)),
        ),
        StepView::ListChunks => OutcomeView::Names((request.list)(disk.chunks.dom())),
        StepView::ReadSession => if !disk.chunks.contains_key(session) {
            OutcomeView::NoSession
        } else if valid_utf8(disk.chunks[session]) {
            OutcomeView::Session(decode_utf8(disk.chunks[session]))
        } else {
            OutcomeView::Failed(disk.no_text)
        },
        StepView::Assemble => if at_hand(disk.chunks, wanted) == wanted.len() {
            OutcomeView::Done
        } else {
            OutcomeView::Failed(disk.no_file)
        },
        _ => OutcomeView::Done,
    }
}

/// What a step leaves. Chunks are put together one by one: where one is
/// missing, the file holds those before it.
pub open spec fn effect_on(disk: Disk, request: Request, step: StepView) -> Disk {
    let id = request.form.file_id@;
    match step {
        StepView::DropChunksThenBegin | StepView::DropChunksThenAnswer(_) | StepView::CloseSession
        | StepView::CloseSessionThenAnswer(_) => Disk {
            chunks: without_upload(disk.chunks, id),
            ..disk
        },
        StepView::CreateSession => Disk {
            chunks: disk.chunks.insert(session_name(id), encode_utf8(request.session)),
            ..disk
        },
        StepView::WriteChunk => Disk {
            chunks: disk.chunks.insert(
                chunk_name(id, request.form.chunk_index as int),
                request.bytes,
            ),
            ..disk
        },
        StepView::Assemble => {
            let wanted = wanted_chunks(request.form);
            let found = wanted.take(at_hand(disk.chunks, wanted) as int);
            Disk {
                uploaded: disk.uploaded.insert(request.name(), contents(disk.chunks, found)),
                ..disk
            }
        },
        StepView::RemoveArchive | StepView::RemoveFileThenAnswer(_) => Disk {
            uploaded: disk.uploaded.remove(request.name()),
            ..disk
        },
        StepView::RecordBlendFile(file) => Disk { recorded: Some(file), ..disk },
        _ => disk,
    }
}

/// Where a request leads from a step, and what it leaves there: to its answer,
/// or to an archive that is to be unpacked. (The id of its upload is taken to
/// be fit for a file name.)
pub open spec fn served(disk: Disk, request: Request, step: StepView) -> (Disk, StepView)
    decreases steps_left(step),
    via served_decreases
{
    if step is Answer || step is Unzip {
        (disk, step)
    } else {
        let outcome = outcome_on(disk, request, step);
        served(
            effect_on(disk, request, step),
            request,
            next_step(request.form, request.name(), step, outcome),
        )
    }
}

#[via_fn]
proof fn served_decreases(disk: Disk, request: Request, step: StepView) {
    let outcome = outcome_on(disk, request, step);
    assert(step is Answer || possible(step, outcome));
    every_request_is_answered(request.form, request.name(), step, outcome);
}

/// Where a request leads, and what it leaves.
pub open spec fn answered(disk: Disk, request: Request) -> (Disk, StepView) {
    served(disk, request, StepView::EnsureUploadDir)
}

/// What the first `n` requests leave.
pub open spec fn disk_after(disk: Disk, requests: Seq<Request>, n: int) -> Disk
    decreases n,
{
    if n <= 0 {
        disk
    } else {
        answered(disk_after(disk, requests, n - 1), requests[n - 1]).0
    }
}

/// The request is one of the upload.
pub open spec fn is_of_upload(
    request: Request,
    file_id: Seq<char>,
    name: Seq<char>,
    total: u32,
) -> bool {
    &&& request.form.file_id@ == file_id
    &&& request.name() == name
    &&& request.form.total_chunks == total
    &&& request.form.chunk_index < total
    &&& forall|files: Set<Seq<char>>| #[trigger] lists(request.list, files)
}

/// The files are listed, each once.
pub open spec fn lists(
    list: spec_fn(Set<Seq<char>>) -> Seq<Seq<char>>,
    files: Set<Seq<char>>,
) -> bool {
    files.finite() ==> list(files).no_duplicates() && list(files).to_set() == files
}

/// The requests are those of one upload: its id is fit for a file name, chunk
/// zero comes first, and every chunk comes once.
pub open spec fn is_upload(
    requests: Seq<Request>,
    file_id: Seq<char>,
    name: Seq<char>,
    total: u32,
) -> bool {
    &&& is_plain_id(file_id)
    &&& requests.len() == total
    &&& total >= 1
    &&& forall|i: int|
        0 <= i < total ==> is_of_upload(#[trigger] requests[i], file_id, name, total)
    &&& forall|i: int, j: int|
        0 <= i < j < total ==> (#[trigger] requests[i]).form.chunk_index != (
        #[trigger] requests[j]).form.chunk_index
    &&& requests[0].form.chunk_index == 0
    &&& json_parse(requests[0].session) == well_formed(
        session_record(name, total, requests[0].created_at),
    )
}

/// The request that brings chunk `k`.
pub open spec fn brings(requests: Seq<Request>, k: int) -> int {
    choose|i: int|
        0 <= i < requests.len() && (#[trigger] requests[i]).form.chunk_index == k
}

/// The first `n` chunks, in the order of their numbers.
pub open spec fn sent(requests: Seq<Request>, n: int) -> Seq<u8>
    decreases n,
{
    if n <= 0 {
        Seq::empty()
    } else {
        sent(requests, n - 1) + requests[brings(requests, n - 1)].bytes
    }
}

/// The file of the chunk that a request brings.
pub open spec fn file_of(request: Request) -> Seq<char> {
    chunk_name(request.form.file_id@, request.form.chunk_index as int)
}

/// The first `n` requests, of which there is at least one, have saved their
/// chunks; of the upload, the directory holds these and the session only, and
/// nothing else has changed but that older files of the upload are gone.
pub open spec fn saved(
    before: Disk,
    disk: Disk,
    requests: Seq<Request>,
    file_id: Seq<char>,
    n: int,
) -> bool {
    let session = session_name(file_id);
    &&& disk.chunks.dom().finite()
    &&& disk.chunks.contains_key(session)
    &&& disk.chunks[session] == encode_utf8(requests[0].session)
    &&& forall|j: int|
        0 <= j < n ==> disk.chunks.contains_key(file_of(#[trigger] requests[j]))
            && disk.chunks[file_of(requests[j])] == requests[j].bytes
    &&& forall|file: Seq<char>| #[trigger]
        disk.chunks.contains_key(file) && belongs_to(file, file_id) ==> file == session || exists|
            j: int,
        | 0 <= j < n && file == file_of(#[trigger] requests[j])
    &&& without_upload(disk.chunks, file_id) == without_upload(before.chunks, file_id)
    &&& disk == Disk { chunks: disk.chunks, ..before }
}

proof fn lemma_first_chunk(disk: Disk, request: Request)
    requires
        kind_of(request.name()) != FileKind::Unsupported,
        request.form.chunk_index == 0,
        no_scene(disk),
        lists(request.list, Set::empty()),
    ensures
        answered(disk, request) == served(
            Disk {
                chunks: without_upload(disk.chunks, request.form.file_id@).insert(
                    session_name(request.form.file_id@),
                    encode_utf8(request.session),
                ).insert(file_of(request), request.bytes),
                ..disk
            },
            request,
            StepView::ListChunks,
        ),
{
    let cleaned = effect_on(disk, request, StepView::DropChunksThenBegin);
    let begun = effect_on(cleaned, request, StepView::CreateSession);
    let written = effect_on(begun, request, StepView::WriteChunk);
    assert(answered(disk, request) == served(disk, request, StepView::EnsureChunksDir));
    assert(answered(disk, request) == served(disk, request, StepView::DropChunksThenBegin));
    assert(answered(disk, request) == served(cleaned, request, StepView::FindBlendFiles));
    assert(uploaded_scenes(cleaned) =~= Set::empty());
    let listed = (request.list)(Set::empty());
    if listed.len() > 0 {
        assert(listed.to_set().contains(listed[0]));
    }
    assert(answered(disk, request) == served(cleaned, request, StepView::CreateSession));
    assert(answered(disk, request) == served(begun, request, StepView::ReadChunk));
    assert(answered(disk, request) == served(begun, request, StepView::WriteChunk));
    assert(answered(disk, request) == served(written, request, StepView::ListChunks));
}

proof fn lemma_later_chunk(disk: Disk, request: Request, first: Request)
    requires
        kind_of(request.name()) != FileKind::Unsupported,
        request.form.chunk_index != 0,
        disk.chunks.contains_key(session_name(request.form.file_id@)),
        disk.chunks[session_name(request.form.file_id@)] == encode_utf8(first.session),
        json_parse(first.session) == well_formed(
            session_record(request.name(), request.form.total_chunks, first.created_at),
        ),
    ensures
        answered(disk, request) == served(
            Disk { chunks: disk.chunks.insert(file_of(request), request.bytes), ..disk },
            request,
            StepView::ListChunks,
        ),
{
    let written = effect_on(disk, request, StepView::WriteChunk);
    encode_utf8_decode_utf8(first.session);
    encode_utf8_valid_utf8(first.session);
    session_reads_back(
        first.session,
        request.name(),
        request.form.total_chunks,
        first.created_at,
        request.name(),
        request.form.total_chunks,
    );
    assert(answered(disk, request) == served(disk, request, StepView::EnsureChunksDir));
    assert(answered(disk, request) == served(disk, request, StepView::ReadSession));
    assert(answered(disk, request) == served(disk, request, StepView::ReadChunk));
    assert(answered(disk, request) == served(disk, request, StepView::WriteChunk));
    assert(answered(disk, request) == served(written, request, StepView::ListChunks));
}

/// A request that saves its chunk leaves what the requests before it saved.
proof fn lemma_saved(
    before: Disk,
    disk: Disk,
    requests: Seq<Request>,
    file_id: Seq<char>,
    name: Seq<char>,
    total: u32,
    n: int,
)
    requires
        is_upload(requests, file_id, name, total),
        kind_of(name) != FileKind::Unsupported,
        before.chunks.dom().finite(),
        no_scene(before),
        0 <= n < total,
        n == 0 ==> disk == before,
        n > 0 ==> saved(before, disk, requests, file_id, n),
    ensures
        exists|left: Disk|
            saved(before, left, requests, file_id, n + 1) && answered(disk, requests[n])
                == #[trigger] served(left, requests[n], StepView::ListChunks),
{
    let request = requests[n];
    let session = session_name(file_id);
    let file = file_of(request);
    let cleaned = without_upload(disk.chunks, file_id);
    assert(is_of_upload(request, file_id, name, total));
    saved_chunk_is_counted(file_id, request.form.chunk_index as nat);
    session_is_not_counted(file_id);
    let chunks = if n == 0 {
        cleaned.insert(session, encode_utf8(request.session)).insert(file, request.bytes)
    } else {
        disk.chunks.insert(file, request.bytes)
    };
    let left = Disk { chunks, ..disk };
    if n == 0 {
        assert(lists(request.list, Set::empty()));
        lemma_first_chunk(disk, request);
        assert(cleaned.dom() =~= disk.chunks.dom().intersect(
            Set::new(|name: Seq<char>| !belongs_to(name, file_id)),
        ));
    } else {
        assert(requests[0].form.chunk_index != request.form.chunk_index);
        lemma_later_chunk(disk, request, requests[0]);
    }
    assert forall|j: int| 0 <= j < n implies file_of(#[trigger] requests[j]) != file by {
        assert(is_of_upload(requests[j], file_id, name, total));
        if file_of(requests[j]) == file {
            chunks_do_not_collide(
                file_id,
                requests[j].form.chunk_index as int,
                request.form.chunk_index as int,
            );
        }
    }
    assert forall|f: Seq<char>| #[trigger]
        chunks.contains_key(f) && belongs_to(f, file_id) implies f == session || exists|j: int|
        0 <= j < n + 1 && f == file_of(#[trigger] requests[j]) by {
        if f == file {
            assert(f == file_of(requests[n]));
        } else if n > 0 {
            assert(disk.chunks.contains_key(f));
        }
    }
    assert(without_upload(chunks, file_id) =~= without_upload(before.chunks, file_id));
    assert(saved(before, left, requests, file_id, n + 1));
}

proof fn lemma_total_of_set(names: Seq<Seq<char>>, file_id: Seq<char>)
    requires
        names.no_duplicates(),
    ensures
        names.to_set().filter(|name: Seq<char>| counts_as_chunk(name, file_id)).finite(),
        chunk_total(names, file_id) == names.to_set().filter(
            |name: Seq<char>| counts_as_chunk(name, file_id),
        ).len(),
    decreases names.len(),
{
    let counted = |name: Seq<char>| counts_as_chunk(name, file_id);
    let all = names.to_set().filter(counted);
    if names.len() == 0 {
        assert(all =~= Set::empty());
    } else {
        let rest = names.drop_last();
        let last = names.last();
        lemma_total_of_set(rest, file_id);
        assert forall|name: Seq<char>| names.contains(name) implies name == last || rest.contains(
            name,
        ) by {
            let i = choose|i: int| 0 <= i < names.len() && names[i] == name;
            if i < names.len() - 1 {
                assert(rest[i] == name);
            }
        }
        assert forall|name: Seq<char>| rest.contains(name) implies names.contains(name) && name
            != last by {
            let i = choose|i: int| 0 <= i < rest.len() && rest[i] == name;
            assert(names[i] == name);
        }
        assert(names.contains(last)) by {
            assert(names[names.len() - 1] == last);
        }
        if counts_as_chunk(last, file_id) {
            assert(all =~= rest.to_set().filter(counted).insert(last));
        } else {
            assert(all =~= rest.to_set().filter(counted));
        }
    }
}

/// As many chunks are counted as have been saved.
proof fn lemma_saved_are_counted(
    before: Disk,
    disk: Disk,
    requests: Seq<Request>,
    file_id: Seq<char>,
    name: Seq<char>,
    total: u32,
    n: int,
    list: spec_fn(Set<Seq<char>>) -> Seq<Seq<char>>,
)
    requires
        is_upload(requests, file_id, name, total),
        1 <= n <= total,
        saved(before, disk, requests, file_id, n),
        forall|files: Set<Seq<char>>| #[trigger] lists(list, files),
    ensures
        chunk_total(list(disk.chunks.dom()), file_id) == n,
{
    let names = list(disk.chunks.dom());
    let counted = |name: Seq<char>| counts_as_chunk(name, file_id);
    let files = Seq::new(n as nat, |j: int| file_of(requests[j]));
    assert(lists(list, disk.chunks.dom()));
    lemma_total_of_set(names, file_id);
    session_is_not_counted(file_id);
    assert forall|i: int, j: int| 0 <= i < files.len() && 0 <= j < files.len() && i
        != j implies files[i] != files[j] by {
        assert(is_of_upload(requests[i], file_id, name, total));
        assert(is_of_upload(requests[j], file_id, name, total));
        if files[i] == files[j] {
            chunks_do_not_collide(
                file_id,
                requests[i].form.chunk_index as int,
                requests[j].form.chunk_index as int,
            );
        }
    }
    files.unique_seq_to_set();
    assert forall|f: Seq<char>| names.to_set().filter(counted).contains(f)
        == files.to_set().contains(f) by {
        if names.to_set().filter(counted).contains(f) {
            assert(disk.chunks.contains_key(f));
            let j = choose|j: int| 0 <= j < n && f == file_of(#[trigger] requests[j]);
            assert(files[j] == f);
        }
        if files.to_set().contains(f) {
            let j = choose|j: int| 0 <= j < files.len() && files[j] == f;
            assert(is_of_upload(requests[j], file_id, name, total));
            saved_chunk_is_counted(file_id, requests[j].form.chunk_index as nat);
            assert(disk.chunks.contains_key(file_of(requests[j])));
        }
    }
    assert(names.to_set().filter(counted) =~= files.to_set());
}

/// The files are all there, or the first that is not is found.
proof fn lemma_at_hand(files: Map<Seq<char>, Seq<u8>>, names: Seq<Seq<char>>, k: int)
    requires
        0 <= k <= names.len(),
        forall|j: int| 0 <= j < k ==> files.contains_key(#[trigger] names[j]),
        k < names.len() ==> !files.contains_key(names[k]),
    ensures
        at_hand(files, names) == k,
    decreases names.len(),
{
    if k > 0 {
        let rest = names.drop_first();
        assert(files.contains_key(names[0]));
        assert forall|j: int| 0 <= j < k - 1 implies files.contains_key(#[trigger] rest[j]) by {
            assert(rest[j] == names[j + 1]);
        }
        lemma_at_hand(files, rest, k - 1);
    }
}

/// Where chunk `k` is the first that is missing when chunks are put together,
/// the file is left with the chunks before it, whatever it held; no file of
/// the upload is left in the directory of chunks, and the client is told of
/// the failure.
pub proof fn missing_chunk_leaves_the_chunks_before_it(disk: Disk, request: Request, k: int)
    requires
        is_plain_id(request.form.file_id@),
        0 <= k < wanted_chunks(request.form).len(),
        !disk.chunks.contains_key(wanted_chunks(request.form)[k]),
        forall|j: int|
            0 <= j < k ==> disk.chunks.contains_key(#[trigger] wanted_chunks(request.form)[j]),
    ensures
        served(disk, request, StepView::Assemble) == (
            Disk {
                uploaded: disk.uploaded.insert(
                    request.name(),
                    contents(disk.chunks, wanted_chunks(request.form).take(k)),
                ),
                chunks: without_upload(disk.chunks, request.form.file_id@),
                ..disk
            },
            StepView::Answer(
                answer(
                    Status::InternalServerError,
                    "Failed to assemble chunks: "@ + disk.no_file,
                ),
            ),
        ),
{
    lemma_at_hand(disk.chunks, wanted_chunks(request.form), k);
    let reply = answer(
        Status::InternalServerError,
        "Failed to assemble chunks: "@ + disk.no_file,
    );
    let cut = effect_on(disk, request, StepView::Assemble);
    let closed = effect_on(cut, request, StepView::CloseSessionThenAnswer(reply));
    let all = served(disk, request, StepView::Assemble);
    assert(all == served(cut, request, StepView::CloseSessionThenAnswer(reply)));
    assert(all == served(closed, request, StepView::Answer(reply)));
}

/// While there is a scene in or below the upload directory, be it one that an
/// upload left there, whole or cut short, or another, no upload begins: the
/// first chunk is refused, and leaves nothing but that older files of its
/// upload are gone.
pub proof fn no_upload_begins_beside_a_scene(disk: Disk, request: Request)
    requires
        !no_scene(disk),
        disk.uploaded.dom().finite(),
        kind_of(request.name()) != FileKind::Unsupported,
        request.form.chunk_index == 0,
        forall|files: Set<Seq<char>>| #[trigger] lists(request.list, files),
    ensures
        answered(disk, request) == (
            Disk { chunks: without_upload(disk.chunks, request.form.file_id@), ..disk },
            StepView::Answer(
                answer(
                    Status::BadRequest,
                    "Blend file already exists. Try deleting it before uploading."@,
                ),
            ),
        ),
{
    let reply = answer(
        Status::BadRequest,
        "Blend file already exists. Try deleting it before uploading."@,
    );
    let cleaned = effect_on(disk, request, StepView::DropChunksThenBegin);
    let listed = (request.list)(uploaded_scenes(cleaned));
    assert(lists(request.list, uploaded_scenes(cleaned)));
    if disk.other_scenes.len() == 0 {
        let scene = choose|name: Seq<char>| #[trigger]
            disk.uploaded.contains_key(name) && is_scene_name(name);
        assert(uploaded_scenes(cleaned).contains(scene));
        assert(listed.to_set().contains(scene));
    }
    assert(answered(disk, request) == served(disk, request, StepView::EnsureChunksDir));
    assert(answered(disk, request) == served(disk, request, StepView::DropChunksThenBegin));
    assert(answered(disk, request) == served(cleaned, request, StepView::FindBlendFiles));
    assert(answered(disk, request) == served(cleaned, request, StepView::Answer(reply)));
}

/// Every chunk of an upload is brought by a request.
proof fn lemma_every_chunk_is_brought(
    requests: Seq<Request>,
    file_id: Seq<char>,
    name: Seq<char>,
    total: u32,
    k: int,
)
    requires
        is_upload(requests, file_id, name, total),
        0 <= k < total,
    ensures
        0 <= brings(requests, k) < total,
        requests[brings(requests, k)].form.chunk_index == k,
{
    let indexes = Seq::new(total as nat, |i: int| requests[i].form.chunk_index as int);
    let all = set_int_range(0, total as int);
    assert(indexes.no_duplicates());
    indexes.unique_seq_to_set();
    lemma_int_range(0, total as int);
    assert forall|x: int| indexes.to_set().contains(x) implies all.contains(x) by {
        let i = choose|i: int| 0 <= i < indexes.len() && indexes[i] == x;
        assert(is_of_upload(requests[i], file_id, name, total));
    }
    assert(indexes.to_set().finite()) by {
        vstd::seq_lib::seq_to_set_is_finite(indexes);
    }
    lemma_subset_equality(indexes.to_set(), all);
    assert(all.contains(k));
    let i = choose|i: int| 0 <= i < indexes.len() && indexes[i] == k;
    assert(requests[i].form.chunk_index == k);
}

/// The saved chunks, put together, are the chunks that were sent.
proof fn lemma_contents(
    before: Disk,
    disk: Disk,
    requests: Seq<Request>,
    file_id: Seq<char>,
    name: Seq<char>,
    total: u32,
    n: int,
)
    requires
        is_upload(requests, file_id, name, total),
        saved(before, disk, requests, file_id, total as int),
        0 <= n <= total,
    ensures
        contents(disk.chunks, chunk_names(file_id, 0, n)) == sent(requests, n),
    decreases n,
{
    let names = chunk_names(file_id, 0, n);
    if n > 0 {
        lemma_contents(before, disk, requests, file_id, name, total, n - 1);
        lemma_every_chunk_is_brought(requests, file_id, name, total, n - 1);
        let request = requests[brings(requests, n - 1)];
        assert(is_of_upload(request, file_id, name, total));
        assert(names.drop_last() =~= chunk_names(file_id, 0, n - 1));
        assert(names.last() == file_of(request));
        assert(disk.chunks[file_of(request)] == request.bytes);
    }
}

/// The answer to a chunk after which others are to come.
pub open spec fn more_to_come(form: UploadForm) -> StepView {
    StepView::Answer(
        answer(
            Status::Accepted,
            "Chunk "@ + decimal(form.chunk_index + 1) + " of "@ + decimal(form.total_chunks as int)
                + " received"@,
        ),
    )
}

/// A request that is not the last one saves its chunk and is told that others
/// are to come.
proof fn lemma_not_the_last(
    before: Disk,
    requests: Seq<Request>,
    file_id: Seq<char>,
    name: Seq<char>,
    total: u32,
    n: int,
)
    requires
        is_upload(requests, file_id, name, total),
        kind_of(name) != FileKind::Unsupported,
        before.chunks.dom().finite(),
        no_scene(before),
        0 <= n < total,
    ensures
        n > 0 ==> saved(before, disk_after(before, requests, n), requests, file_id, n),
        n > 0 ==> answered(disk_after(before, requests, n - 1), requests[n - 1]).1 == more_to_come(
            requests[n - 1].form,
        ),
    decreases n,
{
    if n > 0 {
        lemma_not_the_last(before, requests, file_id, name, total, n - 1);
        let disk = disk_after(before, requests, n - 1);
        let request = requests[n - 1];
        lemma_saved(before, disk, requests, file_id, name, total, n - 1);
        let left = choose|left: Disk|
            saved(before, left, requests, file_id, n) && answered(disk, request)
                == #[trigger] served(left, request, StepView::ListChunks);
        assert(is_of_upload(request, file_id, name, total));
        lemma_saved_are_counted(
            before,
            left,
            requests,
            file_id,
            name,
            total,
            n,
            request.list,
        );
        assert(served(left, request, StepView::ListChunks) == served(
            left,
            request,
            more_to_come(request.form),
        ));
    }
}

/// An upload, whatever the order in which its chunks arrive behind the first
/// one, on a disk and a database that work, with no scene there yet: every
/// request but the last is told that others are to come, and leaves the upload
/// directory as it was. The last one leaves there the whole file, which is the
/// chunks in the order of their numbers, and no file of the upload in the
/// directory of chunks; a scene is recorded and reported, an archive goes on
/// to be unpacked.
pub proof fn last_chunk_completes_the_upload(
    disk: Disk,
    requests: Seq<Request>,
    file_id: Seq<char>,
    name: Seq<char>,
    total: u32,
)
    requires
        is_upload(requests, file_id, name, total),
        kind_of(name) != FileKind::Unsupported,
        disk.chunks.dom().finite(),
        no_scene(disk),
    ensures
        forall|i: int|
            0 <= i < total - 1 ==> {
                let (left, step) = answered(disk_after(disk, requests, i), #[trigger] requests[i]);
                &&& step == more_to_come(requests[i].form)
                &&& left.uploaded == disk.uploaded
                &&& left.recorded == disk.recorded
            },
        ({
            let (left, step) = answered(
                disk_after(disk, requests, total - 1),
                requests[total - 1],
            );
            &&& left.uploaded == disk.uploaded.insert(name, sent(requests, total as int))
            &&& left.chunks == without_upload(disk.chunks, file_id)
            &&& kind_of(name) == FileKind::Blend ==> left.recorded == Some(name) && step
                == StepView::Answer(
                answer(Status::Success, "Blend file uploaded successfully"@),
            )
            &&& kind_of(name) == FileKind::Zip ==> left.recorded == disk.recorded && step
                == StepView::Unzip
        }),
{
    assert forall|i: int| 0 <= i < total - 1 implies {
        let (left, step) = answered(disk_after(disk, requests, i), #[trigger] requests[i]);
        &&& step == more_to_come(requests[i].form)
        &&& left.uploaded == disk.uploaded
        &&& left.recorded == disk.recorded
    } by {
        lemma_not_the_last(disk, requests, file_id, name, total, i + 1);
        assert(disk_after(disk, requests, i + 1) == answered(
            disk_after(disk, requests, i),
            requests[i],
        ).0);
    }
    let n = total - 1;
    let last = requests[n];
    let before = disk_after(disk, requests, n);
    lemma_not_the_last(disk, requests, file_id, name, total, n);
    lemma_saved(disk, before, requests, file_id, name, total, n);
    let full = choose|left: Disk|
        saved(disk, left, requests, file_id, n + 1) && answered(before, last)
            == #[trigger] served(left, last, StepView::ListChunks);
    assert(is_of_upload(last, file_id, name, total));
    lemma_saved_are_counted(disk, full, requests, file_id, name, total, total as int, last.list);
    lemma_contents(disk, full, requests, file_id, name, total, total as int);
    let wanted = wanted_chunks(last.form);
    assert forall|k: int| 0 <= k < wanted.len() implies full.chunks.contains_key(
        #[trigger] wanted[k],
    ) by {
        lemma_every_chunk_is_brought(requests, file_id, name, total, k);
        let request = requests[brings(requests, k)];
        assert(is_of_upload(request, file_id, name, total));
        assert(full.chunks.contains_key(file_of(request)));
    }
    lemma_at_hand(full.chunks, wanted, wanted.len() as int);
    assert(wanted.take(wanted.len() as int) =~= wanted);
    let whole = effect_on(full, last, StepView::Assemble);
    let closed = effect_on(whole, last, StepView::CloseSession);
    assert(answered(before, last) == served(full, last, StepView::Assemble));
    assert(answered(before, last) == served(whole, last, StepView::CloseSession));
    match kind_of(name) {
        FileKind::Blend => {
            let recorded = effect_on(closed, last, StepView::RecordBlendFile(name));
            let end = StepView::Answer(
                answer(Status::Success, "Blend file uploaded successfully"@),
            );
            assert(answered(before, last) == served(closed, last, StepView::RecordBlendFile(name)));
            assert(answered(before, last) == served(recorded, last, end));
        },
        _ => {
            assert(answered(before, last) == served(closed, last, StepView::Unzip));
        },
    }
}

/// Once an upload of a scene is complete, no other upload begins.
pub proof fn complete_upload_stands_in_the_way(
    disk: Disk,
    requests: Seq<Request>,
    file_id: Seq<char>,
    name: Seq<char>,
    total: u32,
    next: Request,
)
    requires
        is_upload(requests, file_id, name, total),
        is_scene_name(name),
        disk.chunks.dom().finite(),
        disk.uploaded.dom().finite(),
        no_scene(disk),
        kind_of(next.name()) != FileKind::Unsupported,
        next.form.chunk_index == 0,
        forall|files: Set<Seq<char>>| #[trigger] lists(next.list, files),
    ensures
        answered(disk_after(disk, requests, total as int), next).1 == StepView::Answer(
            answer(
                Status::BadRequest,
                "Blend file already exists. Try deleting it before uploading."@,
            ),
        ),
{
    let left = disk_after(disk, requests, total as int);
    last_chunk_completes_the_upload(disk, requests, file_id, name, total);
    assert(left == answered(disk_after(disk, requests, total - 1), requests[total - 1]).0);
    assert(left.uploaded.contains_key(name));
    no_upload_begins_beside_a_scene(left, next);
}

} // verus!
