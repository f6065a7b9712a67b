//! Serving the blobs of links over HTTP: which file a request names, and how it is answered.
use vstd::prelude::*;

use crate::cli::args::{find_char, index_of, text_at};
use crate::number::{padded, push_padded};
use crate::order::code_point;
use crate::text::{chars_of, push_text, same_text};

verus! {

/// White space.
pub open spec fn is_white(c: char) -> bool {
    let n = c as int;
    (9 <= n <= 13) || n == 0x20 || n == 0x85 || n == 0xa0 || n == 0x1680 || (0x2000 <= n <= 0x200a)
        || n == 0x2028 || n == 0x2029 || n == 0x202f || n == 0x205f || n == 0x3000
}

fn white(c: char) -> (r: bool)
    ensures
        r == is_white(c),
{
    let n = code_point(c);
    (9 <= n && n <= 13) || n == 0x20 || n == 0x85 || n == 0xa0 || n == 0x1680 || (0x2000 <= n && n
        <= 0x200a) || n == 0x2028 || n == 0x2029 || n == 0x202f || n == 0x205f || n == 0x3000
}

/// The first position from `i` on where white space begins, or ends.
pub open spec fn run_end(s: Seq<char>, i: int, of_white: bool) -> int
    decreases s.len() - i,
{
    if i < 0 || i >= s.len() || is_white(s[i]) != of_white {
        i
    } else {
        run_end(s, i + 1, of_white)
    }
}

proof fn run_end_range(s: Seq<char>, i: int, of_white: bool)
    requires
        0 <= i <= s.len(),
    ensures
        i <= run_end(s, i, of_white) <= s.len(),
    decreases s.len() - i,
{
    if i < s.len() && is_white(s[i]) == of_white {
        run_end_range(s, i + 1, of_white);
    }
}

fn find_run_end(s: &[char], from: usize, of_white: bool) -> (r: usize)
    requires
        from <= s@.len(),
    ensures
        r == run_end(s@, from as int, of_white),
        from <= r <= s@.len(),
{
    let mut i: usize = from;
    while i < s.len() && white(s[i]) == of_white
        invariant
            from <= i <= s@.len(),
            run_end(s@, from as int, of_white) == run_end(s@, i as int, of_white),
        decreases s.len() - i,
    {
        i += 1;
    }
    i
}

/// The second word of a text; nothing where it has but one.
pub open spec fn second_word(s: Seq<char>) -> Option<Seq<char>> {
    let a = run_end(s, 0, true);
    let b = run_end(s, a, false);
    let c = run_end(s, b, true);
    let d = run_end(s, c, false);
    if c < d {
        Some(s.subrange(c, d))
    } else {
        None
    }
}

/// The first line of a text.
pub open spec fn first_line(s: Seq<char>) -> Seq<char> {
    s.take(index_of(s, '\n', 0))
}

/// A text without the slashes at its beginning.
pub open spec fn unrooted(s: Seq<char>) -> Seq<char>
    decreases s.len(),
{
    if s.len() > 0 && s[0] == '/' {
        unrooted(s.skip(1))
    } else {
        s
    }
}

/// The path that a request names: the second word of its first line, without the slashes in front.
pub open spec fn requested(s: Seq<char>) -> Seq<char> {
    match second_word(first_line(s)) {
        Some(w) => unrooted(w),
        None => Seq::empty(),
    }
}

/// The path that a request names.
pub fn requested_path(request: &str) -> (r: String)
    ensures
        r@ == requested(request@),
{
    let chars = chars_of(request);
    let end = find_char(chars.as_slice(), '\n');
    let line = vstd::slice::slice_subrange(chars.as_slice(), 0, end);
    assert(line@ =~= first_line(request@));
    let a = find_run_end(line, 0, true);
    let b = find_run_end(line, a, false);
    let c = find_run_end(line, b, true);
    let d = find_run_end(line, c, false);
    let mut from: usize = c;
    let ghost w = line@.subrange(c as int, d as int);
    assert(line@.subrange(from as int, d as int) =~= w);
    while from < d && line[from] == '/'
        invariant
            c <= from <= d <= line@.len(),
            unrooted(w) == unrooted(line@.subrange(from as int, d as int)),
        decreases d - from,
    {
        proof {
            let t = line@.subrange(from as int, d as int);
            assert(t[0] == line@[from as int]);
            assert(t.skip(1) =~= line@.subrange(from + 1, d as int));
        }
        from += 1;
    }
    let out = text_at(line, from, d);
    proof {
        if from < d {
            assert(out@[0] == line@[from as int]);
        }
        assert(unrooted(out@) == out@);
        if c == d {
            assert(out@ =~= Seq::<char>::empty());
        }
    }
    out
}

/// The path climbs out of the directory, or is written with backslashes.
pub open spec fn climbs(s: Seq<char>) -> bool {
    ||| exists|i: int| 0 <= i && i + 1 < s.len() && #[trigger] s[i] == '.' && s[i + 1] == '.'
    ||| exists|i: int| 0 <= i < s.len() && #[trigger] s[i] == '\\'
}

/// What a request is answered before any file is looked at.
#[derive(Debug, PartialEq, Eq)]
pub enum Route {
    BadRequest,
    /// The file of this path.
    File(String),
}

/// The file that a path names: the index where it names none.
pub fn route(path: &str) -> (r: Route)
    ensures
        if climbs(path@) {
            r is BadRequest
        } else {
            r matches Route::File(f) && f@ == if path@.len() == 0 {
                "index.html"@
            } else {
                path@
            }
        },
{
    let chars = chars_of(path);
    let mut i: usize = 0;
    while i < chars.len()
        invariant
            i <= chars@.len(),
            chars@ == path@,
            forall|j: int|
                0 <= j < i ==> #[trigger] path@[j] != '\\' && !(path@[j] == '.' && j + 1
                    < path@.len() && path@[j + 1] == '.'),
        decreases chars.len() - i,
    {
        if chars[i] == '\\' {
            assert(path@[i as int] == '\\');
            return Route::BadRequest;
        }
        if chars[i] == '.' && i + 1 < chars.len() && chars[i + 1] == '.' {
            assert(path@[i as int] == '.' && path@[i + 1] == '.');
            return Route::BadRequest;
        }
        i += 1;
    }
    if chars.len() == 0 {
        Route::File("index.html".to_owned())
    } else {
        Route::File(path.to_owned())
    }
}

/// The media type of a file, by its extension.
pub open spec fn media_type(extension: Option<Seq<char>>) -> Seq<char> {
    if extension == Some("html"@) {
        "text/html; charset=utf-8"@
    } else if extension == Some("js"@) {
        "text/javascript; charset=utf-8"@
    } else {
        "application/octet-stream"@
    }
}

/// The media type of a file, by its extension.
pub fn content_type(extension: Option<&str>) -> (r: &'static str)
    ensures
        r@ == media_type(
            match extension {
                Some(x) => Some(x@),
                None => None,
            },
        ),
{
    match extension {
        Some(x) => if same_text(x, "html") {
            "text/html; charset=utf-8"
        } else if same_text(x, "js") {
            "text/javascript; charset=utf-8"
        } else {
            "application/octet-stream"
        },
        None => "application/octet-stream",
    }
}

/// The head of an answer with a file.
pub open spec fn head_text(media: Seq<char>, length: u64) -> Seq<char> {
    "HTTP/1.1 200 OK\r\nContent-Type: "@ + media
        + "\r\nX-Content-Type-Options: nosniff\r\nAccess-Control-Allow-Origin: *\r\nContent-Length: "@
        + padded(length as nat, 1) + "\r\nConnection: close\r\n\r\n"@
}

/// The head of an answer with a file.
pub fn response_head(extension: Option<&str>, length: u64) -> (r: String)
    ensures
        r@ == head_text(
            media_type(
                match extension {
                    Some(x) => Some(x@),
                    None => None,
                },
            ),
            length,
        ),
{
    let mut out = "HTTP/1.1 200 OK\r\nContent-Type: ".to_owned();
    push_text(&mut out, content_type(extension));
    push_text(
        &mut out,
        "\r\nX-Content-Type-Options: nosniff\r\nAccess-Control-Allow-Origin: *\r\nContent-Length: ",
    );
    push_padded(&mut out, length, 1);
    push_text(&mut out, "\r\nConnection: close\r\n\r\n");
    out
}

/// How a request that gets no file is answered.
#[derive(Clone, Copy, Debug, PartialEq, Eq, Structural)]
pub enum Refusal {
    BadRequest,
    Forbidden,
    NotFound,
    Unreadable,
}

/// The answer to a request that gets no file.
pub fn refusal_text(refusal: Refusal) -> (r: &'static str)
    ensures
        r == match refusal {
            Refusal::BadRequest => "HTTP/1.1 400 Bad Request\r\nContent-Length: 0\r\n\r\n",
            Refusal::Forbidden => "HTTP/1.1 403 Forbidden\r\nContent-Length: 0\r\n\r\n",
            Refusal::NotFound =>
                "HTTP/1.1 404 Not Found\r\nX-Content-Type-Options: nosniff\r\nContent-Length: 0\r\n\r\n",
            Refusal::Unreadable =>
                "HTTP/1.1 404 Not Found\r\nAccess-Control-Allow-Origin: *\r\nContent-Length: 0\r\n\r\n",
        },
{
    match refusal {
        Refusal::BadRequest => "HTTP/1.1 400 Bad Request\r\nContent-Length: 0\r\n\r\n",
        Refusal::Forbidden => "HTTP/1.1 403 Forbidden\r\nContent-Length: 0\r\n\r\n",
        Refusal::NotFound => {
            "HTTP/1.1 404 Not Found\r\nX-Content-Type-Options: nosniff\r\nContent-Length: 0\r\n\r\n"
        },
        Refusal::Unreadable => {
            "HTTP/1.1 404 Not Found\r\nAccess-Control-Allow-Origin: *\r\nContent-Length: 0\r\n\r\n"
        },
    }
}

/// What becomes of a file whose real path was looked up: it is served only where it lies in the
/// served directory.
pub fn check_resolved(found: bool, inside: bool) -> (r: Result<(), Refusal>)
    ensures
        r == if !found {
            Err::<(), Refusal>(Refusal::NotFound)
        } else if !inside {
            Err(Refusal::Forbidden)
        } else {
            Ok(())
        },
{
    if !found {
        Err(Refusal::NotFound)
    } else if !inside {
        Err(Refusal::Forbidden)
    } else {
        Ok(())
    }
}

} // verus!
