//! The files of an upload that comes in chunks: one file for each chunk and
//! one for the session, all in the directory of chunks.
use crate::decimal::{
    all_digits, decimal, decimal_digits_read_back, decimal_injective, is_digit, u64_text,
};
use crate::json::{
    Json, document_text, empty_object, json_parse, json_text, number_member, number_value,
    read_document, set_member, text_member, text_value, well_formed,
};
use crate::text::{chars_of, has_prefix, same_text, texts};
use vstd::prelude::*;
use vstd::string::*;

verus! {

/// What the names of all files of an upload begin with.
pub open spec fn upload_prefix(file_id: Seq<char>) -> Seq<char> {
    file_id + "_"@
}

/// The file that holds one chunk.
pub open spec fn chunk_name(file_id: Seq<char>, index: int) -> Seq<char> {
    upload_prefix(file_id) + decimal(index)
}

/// The file that holds the session.
pub open spec fn session_name(file_id: Seq<char>) -> Seq<char> {
    file_id + "_session.json"@
}

/// Names the file of one chunk.
pub fn chunk_file_name(file_id: &str, chunk_index: u32) -> (res: String)
    ensures
        res@ == chunk_name(file_id@, chunk_index as int),
{
    let number = u64_text(chunk_index as u64);
    file_id.to_owned().concat("_").concat(number.as_str())
}

/// Names the file of the session.
pub fn session_file_name(file_id: &str) -> (res: String)
    ensures
        res@ == session_name(file_id@),
{
    file_id.to_owned().concat("_session.json")
}

/// The file belongs to the upload, by its name.
pub open spec fn belongs_to(name: Seq<char>, file_id: Seq<char>) -> bool {
    upload_prefix(file_id).is_prefix_of(name)
}

/// The file counts as a chunk of the upload, by its name: behind the name of
/// the upload and an underscore stand digits, at least one, and nothing else.
pub open spec fn counts_as_chunk(name: Seq<char>, file_id: Seq<char>) -> bool {
    &&& belongs_to(name, file_id)
    &&& name.len() > file_id.len() + 1
    &&& all_digits(name.skip(file_id.len() as int + 1))
}

/// How many of the files count as chunks of the upload.
pub open spec fn chunk_total(names: Seq<Seq<char>>, file_id: Seq<char>) -> nat
    decreases names.len(),
{
    if names.len() == 0 {
        0
    } else {
        chunk_total(names.drop_last(), file_id) + (if counts_as_chunk(names.last(), file_id) {
            1nat
        } else {
            0nat
        })
    }
}

/// Tests whether a file belongs to the upload, and so goes when its chunks
/// are cleaned up.
pub fn is_upload_file(name: &str, file_id: &str) -> (res: bool)
    ensures
        res == belongs_to(name@, file_id@),
{
    let prefix = file_id.to_owned().concat("_");
    has_prefix(name, prefix.as_str())
}

/// Tests whether a file counts as a chunk of the upload.
pub fn is_chunk_file(name: &str, file_id: &str) -> (res: bool)
    ensures
        res == counts_as_chunk(name@, file_id@),
{
    if !is_upload_file(name, file_id) {
        return false;
    }
    let x = chars_of(name);
    proof {
        reveal_strlit("_");
        assert(upload_prefix(file_id@).len() == file_id@.len() + 1);
        assert(file_id@.len() + 1 <= x.len());
    }
    let from: usize = file_id.unicode_len() + 1;
    if x.len() == from {
        return false;
    }
    let ghost part = name@.skip(from as int);
    let mut i: usize = from;
    while i < x.len()
        invariant
            from <= i <= x@.len(),
            x@ == name@,
            from == file_id@.len() + 1,
            part == name@.skip(from as int),
            forall|k: int| 0 <= k < i - from ==> is_digit(#[trigger] part[k]),
        decreases x@.len() - i,
    {
        let c = x[i];
        assert(c == part[i - from]);
        if !('0' <= c && c <= '9') {
            assert(!is_digit(part[i - from]));
            return false;
        }
        i = i + 1;
    }
    true
}

/// Counts the chunks of an upload among the files of the directory.
pub fn count_chunks_for_file(names: &Vec<String>, file_id: &str) -> (res: u32)
    ensures
        res == chunk_total(texts(names@), file_id@) as u32,
{
    let mut count: usize = 0;
    let mut i: usize = 0;
    let ghost all = texts(names@);
    while i < names.len()
        invariant
            i <= names@.len(),
            all == texts(names@),
            count <= i,
            count == chunk_total(all.take(i as int), file_id@),
        decreases names@.len() - i,
    {
        proof {
            assert(all.take(i + 1).drop_last() == all.take(i as int));
            assert(all.take(i + 1).last() == names@[i as int]@);
        }
        if is_chunk_file(names[i].as_str(), file_id) {
            count = count + 1;
        }
        i = i + 1;
    }
    assert(all.take(i as int) == all);
    #[verifier::truncate]
    (count as u32)
}

/// Goes through the chunks of a complete upload in the order in which they
/// are put together.
pub struct Assembly {
    file_id: String,
    next: u32,
    total: u32,
}

/// The files of the chunks of an upload, in the order in which they are put
/// together.
pub open spec fn chunk_names(file_id: Seq<char>, from: int, total: int) -> Seq<Seq<char>> {
    Seq::new(
        if from < total {
            (total - from) as nat
        } else {
            0
        },
        |k: int| chunk_name(file_id, from + k),
    )
}

impl Assembly {
    /// The files that are still to be handed out.
    pub closed spec fn ahead(&self) -> Seq<Seq<char>> {
        chunk_names(self.file_id@, self.next as int, self.total as int)
    }

    /// Starts before the first chunk.
    pub fn new(file_id: &str, total_chunks: u32) -> (res: Assembly)
        ensures
            res.ahead() == chunk_names(file_id@, 0, total_chunks as int),
    {
        Assembly { file_id: file_id.to_owned(), next: 0, total: total_chunks }
    }

    /// The file of the next chunk; none once every chunk has been handed out.
    pub fn next_chunk(&mut self) -> (res: Option<String>)
        ensures
            match res {
                Some(name) => {
                    &&& old(self).ahead().len() > 0
                    &&& name@ == old(self).ahead()[0]
                    &&& final(self).ahead() == old(self).ahead().drop_first()
                },
                None => old(self).ahead().len() == 0 && *final(self) == *old(self),
            },
    {
        if self.next < self.total {
            let name = chunk_file_name(self.file_id.as_str(), self.next);
            let ghost before = self.ahead();
            self.next = self.next + 1;
            assert(self.ahead() =~= before.drop_first());
            Some(name)
        } else {
            None
        }
    }
}

/// What the session of an upload says.
pub open spec fn session_record(file_name: Seq<char>, total_chunks: u32, created_at: u64) -> Json {
    Json::Object(
        map![
            "file_name"@ => Json::Text(file_name),
            "total_chunks"@ => Json::Unsigned(total_chunks as u64),
            "created_at"@ => Json::Unsigned(created_at),
        ],
    )
}

/// Writes the session of an upload: what is uploaded, in how many chunks, and
/// the second (since 1970) in which it began.
pub fn session_text(file_name: &str, total_chunks: u32, created_at: u64) -> (res: String)
    ensures
        res@ == json_text(session_record(file_name@, total_chunks, created_at)),
        json_parse(res@) == well_formed(session_record(file_name@, total_chunks, created_at)),
{
    let mut record = empty_object();
    set_member(&mut record, "file_name", text_value(file_name));
    set_member(&mut record, "total_chunks", number_value(total_chunks as u64));
    set_member(&mut record, "created_at", number_value(created_at));
    proof {
        reveal_strlit("file_name");
        reveal_strlit("total_chunks");
        reveal_strlit("created_at");
    }
    document_text(&record)
}

/// The session is one of this file in this many chunks.
pub open spec fn session_admits(session: Json, file_name: Seq<char>, total_chunks: u32) -> bool {
    session.text_at("file_name"@) == Some(file_name) && session.number_at("total_chunks"@) == Some(
        total_chunks as u64,
    )
}

/// Compares what a session says with what the client says.
pub fn session_agrees(
    found_name: Option<String>,
    found_total: Option<u64>,
    expected_name: &str,
    expected_total: u32,
) -> (res: bool)
    ensures
        res == (found_name matches Some(name) && name@ == expected_name@ && found_total == Some(
            expected_total as u64,
        )),
{
    let name_agrees = match found_name {
        Some(name) => same_text(name.as_str(), expected_name),
        None => false,
    };
    let total_agrees = match found_total {
        Some(total) => total == expected_total as u64,
        None => false,
    };
    name_agrees && total_agrees
}

/// Checks a chunk against the session of its upload. A session that is no
/// JSON text is an error.
pub fn validate_session(text: &str, expected_name: &str, expected_total: u32) -> (res: Result<
    bool,
    String,
>)
    ensures
        match (res, json_parse(text@)) {
            (Ok(valid), Ok(session)) => valid == session_admits(
                session,
                expected_name@,
                expected_total,
            ),
            (Err(message), Err(error)) => message@ == error,
            _ => false,
        },
{
    match read_document(text) {
        Ok(session) => {
            let found_name = text_member(&session, "file_name");
            let found_total = number_member(&session, "total_chunks");
            Ok(session_agrees(found_name, found_total, expected_name, expected_total))
        },
        Err(message) => Err(message),
    }
}

/// A session that was written for a file is valid for that file in that many
/// chunks, and for no other.
pub proof fn session_reads_back(
    text: Seq<char>,
    file_name: Seq<char>,
    total_chunks: u32,
    created_at: u64,
    other_name: Seq<char>,
    other_total: u32,
)
    requires
        json_parse(text) == well_formed(session_record(file_name, total_chunks, created_at)),
    ensures
        json_parse(text) is Ok,
        session_admits(json_parse(text)->Ok_0, other_name, other_total) == (other_name == file_name
            && other_total == total_chunks),
{
    reveal_strlit("file_name");
    reveal_strlit("total_chunks");
    reveal_strlit("created_at");
    assert("file_name"@.len() == 9 && "total_chunks"@.len() == 12 && "created_at"@.len() == 10);
}

/// Every chunk that is saved is counted, whatever its upload is called.
pub proof fn saved_chunk_is_counted(file_id: Seq<char>, index: nat)
    ensures
        belongs_to(chunk_name(file_id, index as int), file_id),
        counts_as_chunk(chunk_name(file_id, index as int), file_id),
{
    reveal_strlit("_");
    let name = chunk_name(file_id, index as int);
    decimal_digits_read_back(index);
    assert(upload_prefix(file_id) =~= name.subrange(0, upload_prefix(file_id).len() as int));
    assert(name.skip(file_id.len() as int + 1) =~= decimal(index as int));
}

/// The session of an upload is a file of it, but is never counted as a chunk.
pub proof fn session_is_not_counted(file_id: Seq<char>)
    ensures
        belongs_to(session_name(file_id), file_id),
        !counts_as_chunk(session_name(file_id), file_id),
{
    reveal_strlit("_");
    reveal_strlit("_session.json");
    let name = session_name(file_id);
    assert(upload_prefix(file_id) =~= name.subrange(0, upload_prefix(file_id).len() as int));
    let part = name.skip(file_id.len() as int + 1);
    assert(part[0] == 's');
    assert(!is_digit(part[0]));
}

/// Different chunks are saved in different files.
pub proof fn chunks_do_not_collide(file_id: Seq<char>, i: int, j: int)
    requires
        chunk_name(file_id, i) == chunk_name(file_id, j),
    ensures
        i == j,
{
    let prefix = upload_prefix(file_id);
    assert(decimal(i) =~= chunk_name(file_id, i).skip(prefix.len() as int));
    assert(decimal(j) =~= chunk_name(file_id, j).skip(prefix.len() as int));
    decimal_injective(i, j);
}

/// A chunk that is added to the directory raises the count of its upload by
/// one; a file that counts as no chunk leaves it as it was.
pub proof fn count_grows_with_each_chunk(names: Seq<Seq<char>>, file_id: Seq<char>, added: Seq<char>)
    ensures
        chunk_total(names.push(added), file_id) == chunk_total(names, file_id) + (
        if counts_as_chunk(added, file_id) {
            1nat
        } else {
            0nat
        }),
{
    assert(names.push(added).drop_last() == names);
}

/// Exactly the files named by an upload, an underscore and a number count as
/// its chunks, whatever the upload is called.
pub proof fn numbered_files_are_counted(name: Seq<char>, file_id: Seq<char>)
    ensures
        counts_as_chunk(name, file_id) == (exists|digits: Seq<char>| #[trigger]
            all_digits(digits) && digits.len() > 0 && name == file_id + "_"@ + digits),
{
    reveal_strlit("_");
    let rest = name.skip(file_id.len() as int + 1);
    if counts_as_chunk(name, file_id) {
        assert(name =~= upload_prefix(file_id) + rest);
        assert(all_digits(rest));
    }
    if exists|digits: Seq<char>| #[trigger]
        all_digits(digits) && digits.len() > 0 && name == file_id + "_"@ + digits {
        let digits = choose|digits: Seq<char>| #[trigger]
            all_digits(digits) && digits.len() > 0 && name == file_id + "_"@ + digits;
        assert(upload_prefix(file_id) =~= name.subrange(0, upload_prefix(file_id).len() as int));
        assert(rest =~= digits);
    }
}

/// A cleanup of an upload takes its session and every file that counts as a
/// chunk of it, and no chunk of another upload, unless the name of that one is
/// longer.
pub proof fn cleanup_takes_the_upload(
    file_id: Seq<char>,
    name: Seq<char>,
    other_id: Seq<char>,
    index: nat,
)
    ensures
        counts_as_chunk(name, file_id) || name == session_name(file_id) ==> belongs_to(
            name,
            file_id,
        ),
        other_id != file_id && other_id.len() <= file_id.len() ==> !belongs_to(
            chunk_name(other_id, index as int),
            file_id,
        ),
{
    session_is_not_counted(file_id);
    let other = chunk_name(other_id, index as int);
    if belongs_to(other, file_id) && other_id.len() <= file_id.len() {
        reveal_strlit("_");
        let k = file_id.len() as int;
        assert(upload_prefix(file_id)[k] == '_');
        assert(other.subrange(0, k + 1)[k] == other[k]);
        if other_id.len() < k {
            decimal_digits_read_back(index);
            assert(is_digit(decimal(index as int)[k - other_id.len() - 1]));
        } else {
            assert(other_id =~= other.subrange(0, k));
            assert(file_id =~= upload_prefix(file_id).subrange(0, k));
            assert(other.subrange(0, k) =~= other.subrange(0, k + 1).subrange(0, k));
        }
    }
}

/// How the files of an upload are named: a chunk by the upload, an underscore
/// and its number, the session by the upload and its own ending.
pub proof fn names_of_the_files(file_id: Seq<char>, index: int)
    ensures
        chunk_name(file_id, index) == file_id + seq!['_'] + decimal(index),
        session_name(file_id) == file_id + "_session.json"@,
{
    reveal_strlit("_");
    assert("_"@ =~= seq!['_']);
}

/// A file belongs to an upload exactly if its name begins with that of the
/// upload and an underscore, and counts as a chunk of it exactly if one or
/// more digits follow, and nothing else.
pub proof fn chunks_character_by_character(name: Seq<char>, file_id: Seq<char>)
    ensures
        belongs_to(name, file_id) <==> name.len() > file_id.len() && name[file_id.len() as int]
            == '_' && forall|i: int| 0 <= i < file_id.len() ==> name[i] == #[trigger] file_id[i],
        counts_as_chunk(name, file_id) <==> belongs_to(name, file_id) && name.len()
            > file_id.len() + 1 && forall|i: int|
            file_id.len() < i < name.len() ==> 48 <= #[trigger] name[i] as int <= 57,
{
    reveal_strlit("_");
    let prefix = upload_prefix(file_id);
    let k = file_id.len() as int;
    if belongs_to(name, file_id) {
        let head = name.subrange(0, prefix.len() as int);
        assert(head[k] == prefix[k]);
        assert forall|i: int| 0 <= i < k implies name[i] == #[trigger] file_id[i] by {
            assert(head[i] == prefix[i]);
        }
    }
    if name.len() > k && name[k] == '_' && forall|i: int|
        0 <= i < k ==> name[i] == #[trigger] file_id[i] {
        assert(prefix =~= name.subrange(0, prefix.len() as int));
    }
    let rest = name.skip(k + 1);
    if counts_as_chunk(name, file_id) {
        assert forall|i: int| k < i < name.len() implies 48 <= #[trigger] name[i] as int <= 57 by {
            assert(is_digit(rest[i - k - 1]));
        }
    }
    if name.len() > k + 1 && forall|i: int|
        k < i < name.len() ==> 48 <= #[trigger] name[i] as int <= 57 {
        assert forall|i: int| 0 <= i < rest.len() implies is_digit(#[trigger] rest[i]) by {
            assert(rest[i] == name[i + k + 1]);
        }
    }
}

/// No files hold no chunks, one file one if it counts and else none, and the
/// chunks in two lists add up.
pub proof fn chunks_add_up(
    some: Seq<Seq<char>>,
    more: Seq<Seq<char>>,
    name: Seq<char>,
    file_id: Seq<char>,
)
    ensures
        chunk_total(Seq::empty(), file_id) == 0,
        counts_as_chunk(name, file_id) ==> chunk_total(seq![name], file_id) == 1,
        !counts_as_chunk(name, file_id) ==> chunk_total(seq![name], file_id) == 0,
        chunk_total(some + more, file_id) == chunk_total(some, file_id) + chunk_total(
            more,
            file_id,
        ),
    decreases more.len(),
{
    let one = seq![name];
    assert(one.drop_last() =~= Seq::<Seq<char>>::empty());
    assert(chunk_total(one.drop_last(), file_id) == 0);
    if more.len() == 0 {
        assert(some + more =~= some);
    } else {
        assert((some + more).drop_last() =~= some + more.drop_last());
        chunks_add_up(some, more.drop_last(), name, file_id);
    }
}

/// The chunks that are put together are all from the first to the last, each
/// in the place of its number.
pub proof fn chunks_in_the_order_of_their_numbers(file_id: Seq<char>, total: int, k: int)
    requires
        0 <= k < total,
    ensures
        chunk_names(file_id, 0, total).len() == total,
        chunk_names(file_id, 0, total)[k] == chunk_name(file_id, k),
        chunk_names(file_id, 0, 0).len() == 0,
{
}

/// A session admits a chunk exactly if it has the name of the file and the
/// number of chunks that the chunk is sent with, whatever else it has.
pub proof fn session_admits_what_it_names(session: Json, file_name: Seq<char>, total_chunks: u32)
    ensures
        session_admits(session, file_name, total_chunks) <==> session.text_at("file_name"@) == Some(
            file_name,
        ) && session.number_at("total_chunks"@) == Some(total_chunks as u64),
{
}

/// A session has what was uploaded, in how many chunks, and when it began.
pub proof fn members_of_a_session(file_name: Seq<char>, total_chunks: u32, created_at: u64)
    ensures
        session_record(file_name, total_chunks, created_at).text_at("file_name"@) == Some(
            file_name,
        ),
        session_record(file_name, total_chunks, created_at).number_at("total_chunks"@) == Some(
            total_chunks as u64,
        ),
        session_record(file_name, total_chunks, created_at).number_at("created_at"@) == Some(
            created_at,
        ),
{
    reveal_strlit("file_name");
    reveal_strlit("total_chunks");
    reveal_strlit("created_at");
    assert("file_name"@.len() == 9 && "total_chunks"@.len() == 12 && "created_at"@.len() == 10);
}

} // verus!
