//! Serving the pages of the client.
use crate::reply::{Reply, Status, answer, reply};
use crate::text::{chars_of, same_text, text_between};
use vstd::prelude::*;

verus! {

/// What stands behind the last dot of a path; the whole path where there is
/// no dot.
pub open spec fn after_last_dot(path: Seq<char>) -> Seq<char>
    decreases path.len(),
{
    if path.len() == 0 || path.last() == '.' {
        Seq::empty()
    } else {
        after_last_dot(path.drop_last()).push(path.last())
    }
}

/// The content type of a file, by the ending of its name.
pub open spec fn content_type(path: Seq<char>) -> Seq<char> {
    let ending = after_last_dot(path);
    if ending == "html"@ {
        "text/html"@
    } else if ending == "css"@ {
        "text/css"@
    } else if ending == "js"@ {
        "application/javascript"@
    } else if ending == "json"@ {
        "application/json"@
    } else if ending == "png"@ {
        "image/png"@
    } else if ending == "jpg"@ || ending == "jpeg"@ {
        "image/jpeg"@
    } else if ending == "webp"@ {
        "image/webp"@
    } else if ending == "gif"@ {
        "image/gif"@
    } else if ending == "svg"@ {
        "image/svg+xml"@
    } else if ending == "ico"@ {
        "image/x-icon"@
    } else if ending == "woff"@ {
        "font/woff"@
    } else if ending == "woff2"@ {
        "font/woff2"@
    } else if ending == "ttf"@ {
        "font/ttf"@
    } else if ending == "eot"@ {
        "application/vnd.ms-fontobject"@
    } else {
        "application/octet-stream"@
    }
}

fn ending_of(path: &str) -> (res: String)
    ensures
        res@ == after_last_dot(path@),
{
    let x = chars_of(path);
    let mut i: usize = x.len();
    assert(x@.take(x@.len() as int) == x@);
    assert(x@.skip(x@.len() as int) == Seq::<char>::empty());
    while i > 0 && x[i - 1] != '.'
        invariant
            i <= x@.len(),
            x@ == path@,
            after_last_dot(path@) == after_last_dot(x@.take(i as int)) + x@.skip(i as int),
        decreases i,
    {
        let ghost head = x@.take(i as int);
        proof {
            assert(head.drop_last() == x@.take(i - 1));
            assert(after_last_dot(head) + x@.skip(i as int) =~= after_last_dot(x@.take(i - 1))
                + x@.skip(i - 1));
        }
        i = i - 1;
    }
    assert(after_last_dot(x@.take(i as int)) == Seq::<char>::empty());
    let res = text_between(&x, i, x.len());
    assert(res@ =~= x@.skip(i as int));
    assert(Seq::<char>::empty() + x@.skip(i as int) =~= x@.skip(i as int));
    res
}

/// The content type of a file, by the ending of its name.
pub fn get_content_type(path: &str) -> (res: &'static str)
    ensures
        res@ == content_type(path@),
{
    let found = ending_of(path);
    let ending = found.as_str();
    if same_text(ending, "html") {
        "text/html"
    } else if same_text(ending, "css") {
        "text/css"
    } else if same_text(ending, "js") {
        "application/javascript"
    } else if same_text(ending, "json") {
        "application/json"
    } else if same_text(ending, "png") {
        "image/png"
    } else if same_text(ending, "jpg") || same_text(ending, "jpeg") {
        "image/jpeg"
    } else if same_text(ending, "webp") {
        "image/webp"
    } else if same_text(ending, "gif") {
        "image/gif"
    } else if same_text(ending, "svg") {
        "image/svg+xml"
    } else if same_text(ending, "ico") {
        "image/x-icon"
    } else if same_text(ending, "woff") {
        "font/woff"
    } else if same_text(ending, "woff2") {
        "font/woff2"
    } else if same_text(ending, "ttf") {
        "font/ttf"
    } else if same_text(ending, "eot") {
        "application/vnd.ms-fontobject"
    } else {
        "application/octet-stream"
    }
}

/// The file that a request is for: the start page unless the request names
/// another file.
pub open spec fn requested_file(path: Option<String>) -> Seq<char> {
    match path {
        None => "index.html"@,
        Some(path) => if path@.len() == 0 || path@ == "/"@ {
            "index.html"@
        } else {
            path@
        },
    }
}

/// Finds the file that a request is for.
pub fn frontend_file(path: Option<String>) -> (res: String)
    ensures
        res@ == requested_file(path),
{
    match path {
        None => "index.html".to_owned(),
        Some(path) => if path.as_str().is_empty() || same_text(path.as_str(), "/") {
            "index.html".to_owned()
        } else {
            path
        },
    }
}

/// What a request gets.
#[derive(Debug, PartialEq)]
pub enum Page {
    /// The file that it is for, with this content type.
    File(String),
    /// The start page.
    Index(String),
    /// Neither.
    Missing(Reply),
}

/// Decides what a request gets: its file if that exists, else the start page,
/// which does the routing of its own; `index_exists` says whether that exists.
pub fn frontend_page(file_path: &str, file_exists: bool, index_exists: bool) -> (res: Page)
    ensures
        match res {
            Page::File(kind) => file_exists && kind@ == content_type(file_path@),
            Page::Index(kind) => !file_exists && file_path@ != "index.html"@ && index_exists
                && kind@ == "text/html"@,
            Page::Missing(reply) => !file_exists && (if file_path@ == "index.html"@ {
                reply@ == answer(Status::NotFound, "Frontend not found"@)
            } else {
                !index_exists && reply@ == answer(Status::NotFound, "404 Not Found"@)
            }),
        },
{
    if file_exists {
        Page::File(get_content_type(file_path).to_owned())
    } else if !same_text(file_path, "index.html") {
        if index_exists {
            Page::Index("text/html".to_owned())
        } else {
            Page::Missing(reply(Status::NotFound, "404 Not Found"))
        }
    } else {
        Page::Missing(reply(Status::NotFound, "Frontend not found"))
    }
}

/// The ending of a path is what stands behind its last dot, whatever stands
/// before it; of a path without a dot it is the whole.
pub proof fn ending_follows_the_last_dot(stem: Seq<char>, ending: Seq<char>)
    requires
        !ending.contains('.'),
    ensures
        after_last_dot(stem + seq!['.'] + ending) == ending,
        after_last_dot(ending) == ending,
    decreases ending.len(),
{
    let path = stem + seq!['.'] + ending;
    if ending.len() == 0 {
        assert(path.last() == '.');
        assert(after_last_dot(path) =~= ending);
        assert(after_last_dot(ending) =~= ending);
    } else {
        let shorter = ending.drop_last();
        assert(ending.contains(ending.last()));
        assert forall|i: int| 0 <= i < shorter.len() implies #[trigger] shorter[i] != '.' by {
            assert(ending.contains(ending[i]));
        }
        ending_follows_the_last_dot(stem, shorter);
        assert(path.drop_last() =~= stem + seq!['.'] + shorter);
        assert(path.last() == ending.last());
        assert(shorter.push(ending.last()) =~= ending);
    }
}

/// The type of a file depends on its ending alone: these are the types of the
/// endings that are known, and any other means plain bytes.
pub proof fn types_of_the_endings(stem: Seq<char>, ending: Seq<char>)
    requires
        !ending.contains('.'),
    ensures
        ending == "html"@ ==> content_type(stem + seq!['.'] + ending) == "text/html"@,
        ending == "css"@ ==> content_type(stem + seq!['.'] + ending) == "text/css"@,
        ending == "js"@ ==> content_type(stem + seq!['.'] + ending) == "application/javascript"@,
        ending == "json"@ ==> content_type(stem + seq!['.'] + ending) == "application/json"@,
        ending == "png"@ ==> content_type(stem + seq!['.'] + ending) == "image/png"@,
        ending == "jpg"@ ==> content_type(stem + seq!['.'] + ending) == "image/jpeg"@,
        ending == "jpeg"@ ==> content_type(stem + seq!['.'] + ending) == "image/jpeg"@,
        ending == "webp"@ ==> content_type(stem + seq!['.'] + ending) == "image/webp"@,
        ending == "gif"@ ==> content_type(stem + seq!['.'] + ending) == "image/gif"@,
        ending == "svg"@ ==> content_type(stem + seq!['.'] + ending) == "image/svg+xml"@,
        ending == "ico"@ ==> content_type(stem + seq!['.'] + ending) == "image/x-icon"@,
        ending == "woff"@ ==> content_type(stem + seq!['.'] + ending) == "font/woff"@,
        ending == "woff2"@ ==> content_type(stem + seq!['.'] + ending) == "font/woff2"@,
        ending == "ttf"@ ==> content_type(stem + seq!['.'] + ending) == "font/ttf"@,
        ending == "eot"@ ==> content_type(stem + seq!['.'] + ending) == "application/vnd.ms-fontobject"@,
        ending != "html"@ && ending != "css"@ && ending != "js"@ && ending != "json"@
            && ending != "png"@ && ending != "jpg"@ && ending != "jpeg"@ && ending != "webp"@
            && ending != "gif"@ && ending != "svg"@ && ending != "ico"@ && ending != "woff"@
            && ending != "woff2"@ && ending != "ttf"@
            && ending != "eot"@ ==> content_type(stem + seq!['.'] + ending)
            == "application/octet-stream"@,
        content_type(ending) == content_type(stem + seq!['.'] + ending),
{
    ending_follows_the_last_dot(stem, ending);
    reveal_strlit("html");
    reveal_strlit("css");
    reveal_strlit("js");
    reveal_strlit("json");
    reveal_strlit("png");
    reveal_strlit("jpg");
    reveal_strlit("jpeg");
    reveal_strlit("webp");
    reveal_strlit("gif");
    reveal_strlit("svg");
    reveal_strlit("ico");
    reveal_strlit("woff");
    reveal_strlit("woff2");
    reveal_strlit("ttf");
    reveal_strlit("eot");
    assert("html"@.len() == 4 && "css"@.len() == 3 && "js"@.len() == 2 && "json"@.len() == 4
        && "png"@.len() == 3 && "jpg"@.len() == 3 && "jpeg"@.len() == 4 && "webp"@.len() == 4
        && "gif"@.len() == 3 && "svg"@.len() == 3 && "ico"@.len() == 3 && "woff"@.len() == 4
        && "woff2"@.len() == 5 && "ttf"@.len() == 3 && "eot"@.len() == 3);
    assert("html"@[0] == 'h' && "css"@[0] == 'c' && "json"@[0] == 'j' && "png"@[0] == 'p'
        && "jpg"@[0] == 'j' && "jpeg"@[0] == 'j' && "webp"@[0] == 'w' && "gif"@[0] == 'g'
        && "svg"@[0] == 's' && "ico"@[0] == 'i' && "woff"@[0] == 'w' && "woff2"@[0] == 'w'
        && "ttf"@[0] == 't' && "eot"@[0] == 'e');
    assert("html"@[1] == 't' && "json"@[1] == 's' && "jpeg"@[1] == 'p' && "webp"@[1] == 'e'
        && "woff"@[1] == 'o');
}

/// A request that names a file is for that file; one that names none, or the
/// root, is for the start page.
pub proof fn request_is_for_the_named_file(path: String)
    ensures
        requested_file(None) == "index.html"@,
        path@.len() == 0 ==> requested_file(Some(path)) == "index.html"@,
        path@ == "/"@ ==> requested_file(Some(path)) == "index.html"@,
        path@.len() > 0 && path@ != "/"@ ==> requested_file(Some(path)) == path@,
{
}

} // verus!
