//! What the connection handler decides: which route answers a request, and
//! the bytes of the response once the payload has been read.

use crate::route::by_buffer;
use crate::route::by_signature;
use crate::route::lemma_filter_head;
use crate::route::lemma_signature_selects;
use crate::route::stands_apart;
use crate::route::Route;
use crate::route::RouteView;
use crate::route::Routes;
use crate::route::RoutesProperties;
use crate::text::decimal;
use crate::text::to_decimal;
use vstd::prelude::*;
use vstd::string::StringExecFns;
use vstd::utf8::encode_scalar;
use vstd::utf8::encode_utf8;
use vstd::utf8::is_ascii_chars;
use vstd::utf8::is_ascii_chars_encode_utf8;

verus! {

/// The routes that the server is configured with by default, in the order in
/// which they are declared.
pub open spec fn default_routes() -> Seq<RouteView> {
    seq![
        RouteView {
            version: "HTTP/1.1"@,
            path: "/"@,
            method: "GET"@,
            reply: "HTTP/1.1 200 OK"@,
            filename: "hello.html"@,
        },
        RouteView {
            version: "HTTP/1.1"@,
            path: "/"@,
            method: "POST"@,
            reply: "HTTP/1.1 200 OK"@,
            filename: "hello.html"@,
        },
        RouteView {
            version: "HTTP/1.1"@,
            path: "/sleep"@,
            method: "GET"@,
            reply: "HTTP/1.1 200 OK"@,
            filename: "404.html"@,
        },
    ]
}

/// What each route of a table says, in table order.
pub open spec fn views_of<'a>(table: Seq<Route<'a>>) -> Seq<RouteView> {
    table.map_values(|route: Route<'a>| route@)
}

/// Builds the default route table.
pub fn get_routes() -> (routes: Routes<'static>)
    ensures
        views_of(routes@) == default_routes(),
{
    let routes = vec![
        Route::new("HTTP/1.1", "/", "GET", "HTTP/1.1 200 OK", "hello.html"),
        Route::new("HTTP/1.1", "/", "POST", "HTTP/1.1 200 OK", "hello.html"),
        Route::new("HTTP/1.1", "/sleep", "GET", "HTTP/1.1 200 OK", "404.html"),
    ];
    assert(views_of(routes@) =~= default_routes());
    routes
}

/// The outcome of matching a request against a route table.
#[derive(Debug, Copy, Clone)]
pub enum Resolution<'a> {
    /// The first route, in table order, that accepts the request.
    Matched(Route<'a>),
    /// No route accepts the request.
    NotFound,
}

/// The outcome that a table gives for a request buffer: the first of the
/// matching routes, if there is one.
pub open spec fn resolution_of<'a>(table: Seq<Route<'a>>, buffer: Seq<u8>) -> Resolution<'a> {
    let matched = table.filter(by_buffer(buffer));
    if matched.len() > 0 {
        Resolution::Matched(matched[0])
    } else {
        Resolution::NotFound
    }
}

impl<'a> Resolution<'a> {
    /// The status line that the outcome answers with.
    pub open spec fn status_line(self) -> Seq<char> {
        match self {
            Resolution::Matched(route) => route@.reply,
            Resolution::NotFound => "HTTP/1.1 404 NOT FOUND"@,
        }
    }

    /// The name of the file that holds the body of the answer.
    pub open spec fn payload_name(self) -> Seq<char> {
        match self {
            Resolution::Matched(route) => route@.filename,
            Resolution::NotFound => "404.html"@,
        }
    }

    /// The status line to answer with and the name of the file that holds the
    /// body. An unmatched request is answered as not found.
    pub fn reply(&self) -> (answer: (&str, &str))
        ensures
            answer.0@ == self.status_line(),
            answer.1@ == self.payload_name(),
    {
        match self {
            Resolution::Matched(route) => route.reply(),
            Resolution::NotFound => ("HTTP/1.1 404 NOT FOUND", "404.html"),
        }
    }
}

/// The request to match for what reading the connection gave: the bytes
/// read, or no bytes at all where the read failed.
pub open spec fn request_of(received: Option<&[u8]>) -> Seq<u8> {
    match received {
        Some(bytes) => bytes@,
        None => Seq::empty(),
    }
}

/// Turns what reading the connection gave into the request to match. A
/// failed read is treated as an empty request, which no route with a
/// signature accepts.
pub fn request_bytes<'b>(received: Option<&'b [u8]>) -> (request: &'b [u8])
    ensures
        request@ == request_of(received),
{
    match received {
        Some(bytes) => bytes,
        None => {
            let request: &[u8] = &[];
            assert(request@ =~= Seq::<u8>::empty());
            request
        },
    }
}

/// An empty request matches no route: every signature holds at least the
/// two spaces between its fields.
pub proof fn lemma_empty_request_is_not_found<'a>(table: Seq<Route<'a>>)
    ensures
        resolution_of(table, Seq::empty()) == Resolution::<'a>::NotFound,
{
    let buffer = Seq::<u8>::empty();
    assert forall|i: int| 0 <= i < table.len() implies !by_buffer(buffer)(#[trigger] table[i]) by {
        let signature = table[i]@.signature();
        assert(signature.len() >= 2);
        assert(encode_utf8(signature) == encode_scalar(signature[0] as u32) + encode_utf8(
            signature.drop_first(),
        ));
        assert(encode_scalar(signature[0] as u32).len() >= 1);
    }
    lemma_filter_head(table, by_buffer(buffer));
}

/// Matches a request buffer against the table: the first declared route that
/// accepts it wins, and a request that no route accepts is not found.
pub fn resolve<'r>(routes: &'r Routes<'_>, buffer: &[u8]) -> (resolution: Resolution<'r>)
    ensures
        resolution == resolution_of(routes@, buffer@),
{
    let matched_routes = routes.find_route_by_buffer(buffer);
    if matched_routes.len() > 0 {
        Resolution::Matched(matched_routes[0])
    } else {
        Resolution::NotFound
    }
}

/// The response for a status line and a body: the status line, one header
/// that gives the body's length in bytes, an empty line, and the body.
pub open spec fn response_text(status_line: Seq<char>, body: Seq<char>) -> Seq<char> {
    status_line + "\r\nContent-Length: "@ + decimal(encode_utf8(body).len()) + "\r\n\r\n"@ + body
}

/// Writes the response for a status line and a body.
pub fn format_response(status_line: &str, contents: &str) -> (response: String)
    ensures
        response@ == response_text(status_line@, contents@),
{
    let length = to_decimal(contents.as_bytes().len());
    let mut response = String::from_str(status_line);
    response.append("\r\nContent-Length: ");
    response.append(length.as_str());
    response.append("\r\n\r\n");
    response.append(contents);
    response
}

/// The body to send for what reading the payload gave: the text read, or
/// nothing where the read failed.
pub open spec fn body_of(payload: Option<&str>) -> Seq<char> {
    match payload {
        Some(text) => text@,
        None => Seq::empty(),
    }
}

/// Writes the response to a resolved request. `payload` is what reading the
/// file named by the resolution gave, or `None` where the read failed; a
/// failed read is answered with an empty body under the same status line.
pub fn respond(resolution: &Resolution, payload: Option<&str>) -> (response: String)
    ensures
        response@ == response_text(resolution.status_line(), body_of(payload)),
{
    let (status_line, _) = resolution.reply();
    match payload {
        Some(contents) => format_response(status_line, contents),
        None => {
            proof {
                reveal_strlit("");
            }
            assert(""@ =~= Seq::<char>::empty());
            format_response(status_line, "")
        },
    }
}

/// A matched request is answered by the first route of the table that
/// accepts it, and a request is not found exactly when no route of the table
/// accepts it.
pub proof fn lemma_first_declared_route_wins<'a>(table: Seq<Route<'a>>, buffer: Seq<u8>)
    ensures
        match resolution_of(table, buffer) {
            Resolution::Matched(route) => exists|i: int|
                0 <= i < table.len() && (#[trigger] table[i]) == route && route@.accepts(buffer)
                    && forall|j: int| 0 <= j < i ==> !(#[trigger] table[j])@.accepts(buffer),
            Resolution::NotFound => forall|i: int|
                0 <= i < table.len() ==> !(#[trigger] table[i])@.accepts(buffer),
        },
{
    let keep = by_buffer(buffer);
    lemma_filter_head(table, keep);
    if table.filter(keep).len() > 0 {
        let i = choose|i: int|
            0 <= i < table.len() && keep(#[trigger] table[i]) && table.filter(keep)[0] == table[i]
                && forall|j: int| 0 <= j < i ==> !keep(#[trigger] table[j]);
        assert(table[i]@.accepts(buffer));
        assert forall|j: int| 0 <= j < i implies !(#[trigger] table[j])@.accepts(buffer) by {
            assert(!keep(table[j]));
        }
    } else {
        assert forall|i: int| 0 <= i < table.len() implies !(#[trigger] table[i])@.accepts(
            buffer,
        ) by {
            assert(!keep(table[i]));
        }
    }
}

/// Under the default routes, every request that begins with the line
/// `GET / HTTP/1.1` is answered with the status line `HTTP/1.1 200 OK` and
/// with what `hello.html` holds as its body.
pub proof fn lemma_root_get_is_served<'a>(table: Seq<Route<'a>>, buffer: Seq<u8>, contents: &str)
    requires
        views_of(table) == default_routes(),
        encode_utf8("GET / HTTP/1.1"@).is_prefix_of(buffer),
    ensures
        resolution_of(table, buffer).status_line() == "HTTP/1.1 200 OK"@,
        resolution_of(table, buffer).payload_name() == "hello.html"@,
        response_text(resolution_of(table, buffer).status_line(), body_of(Some(contents)))
            == "HTTP/1.1 200 OK"@ + "\r\nContent-Length: "@ + decimal(
            encode_utf8(contents@).len(),
        ) + "\r\n\r\n"@ + contents@,
{
    reveal_strlit("GET / HTTP/1.1");
    reveal_strlit("GET");
    reveal_strlit("/");
    reveal_strlit("HTTP/1.1");
    assert(table.len() == 3 && table[0]@ == default_routes()[0]) by {
        assert(views_of(table).len() == 3);
        assert(views_of(table)[0] == table[0]@);
    }
    assert(table[0]@.signature() =~= "GET / HTTP/1.1"@);
    assert(table[0]@.accepts(buffer));
    lemma_first_declared_route_wins(table, buffer);
}

/// A failed read of the payload is answered under the same status line,
/// with a content length of zero and nothing after the empty line.
pub proof fn lemma_failed_read_sends_empty_body(status_line: Seq<char>)
    ensures
        response_text(status_line, body_of(None)) == status_line + "\r\nContent-Length: 0\r\n\r\n"@,
{
    reveal_strlit("\r\nContent-Length: ");
    reveal_strlit("\r\n\r\n");
    reveal_strlit("\r\nContent-Length: 0\r\n\r\n");
    let empty = Seq::<char>::empty();
    assert(encode_utf8(empty).len() == 0);
    assert(decimal(0) =~= seq!['0']);
    assert(response_text(status_line, empty) =~= status_line + "\r\nContent-Length: 0\r\n\r\n"@);
}

/// In the default table no signature begins with, or is the beginning of,
/// another: each request that begins with the signature of one of its
/// routes is matched by that route alone.
pub proof fn lemma_default_routes_stand_apart<'a>(table: Seq<Route<'a>>, i: int, buffer: Seq<u8>)
    requires
        views_of(table) == default_routes(),
        0 <= i < table.len(),
        table[i]@.accepts(buffer),
    ensures
        stands_apart(table, i),
        table.filter(by_buffer(buffer)) == seq![table[i]],
{
    reveal_strlit("GET");
    reveal_strlit("POST");
    reveal_strlit("/");
    reveal_strlit("/sleep");
    reveal_strlit("HTTP/1.1");
    assert(table.len() == 3) by {
        assert(views_of(table).len() == 3);
    }
    assert(table[0]@ == default_routes()[0]) by {
        assert(views_of(table)[0] == table[0]@);
    }
    assert(table[1]@ == default_routes()[1]) by {
        assert(views_of(table)[1] == table[1]@);
    }
    assert(table[2]@ == default_routes()[2]) by {
        assert(views_of(table)[2] == table[2]@);
    }
    let s0 = table[0]@.signature();
    let s1 = table[1]@.signature();
    let s2 = table[2]@.signature();
    assert(s0.len() == 14 && s0[0] == 'G' && s0[5] == ' ');
    assert(s1.len() == 15 && s1[0] == 'P');
    assert(s2.len() == 19 && s2[0] == 'G' && s2[5] == 's');
    assert(is_ascii_chars(s0));
    assert(is_ascii_chars(s1));
    assert(is_ascii_chars(s2));
    is_ascii_chars_encode_utf8(s0);
    is_ascii_chars_encode_utf8(s1);
    is_ascii_chars_encode_utf8(s2);
    let b0 = table[0]@.signature_bytes();
    let b1 = table[1]@.signature_bytes();
    let b2 = table[2]@.signature_bytes();
    assert(b0[0] != b1[0] && b1[0] != b2[0] && b0[5] != b2[5]);
    assert(!b0.is_prefix_of(b1) && !b1.is_prefix_of(b0)) by {
        if b0.is_prefix_of(b1) {
            assert(b1.subrange(0, b0.len() as int)[0] == b0[0]);
        }
        if b1.is_prefix_of(b0) {
            assert(b0.subrange(0, b1.len() as int)[0] == b1[0]);
        }
    }
    assert(!b1.is_prefix_of(b2) && !b2.is_prefix_of(b1)) by {
        if b1.is_prefix_of(b2) {
            assert(b2.subrange(0, b1.len() as int)[0] == b1[0]);
        }
        if b2.is_prefix_of(b1) {
            assert(b1.subrange(0, b2.len() as int)[0] == b2[0]);
        }
    }
    assert(!b0.is_prefix_of(b2) && !b2.is_prefix_of(b0)) by {
        if b0.is_prefix_of(b2) {
            assert(b2.subrange(0, b0.len() as int)[5] == b0[5]);
        }
    }
    assert(stands_apart(table, i));
    lemma_signature_selects(table, i, buffer);
    let own = table[i]@.signature_bytes();
    let keep = by_signature(own);
    assert(table.filter(keep) =~= seq![table[i]]) by {
        reveal_with_fuel(Seq::filter, 4);
        assert(table.drop_last().drop_last().drop_last() =~= Seq::<Route<'a>>::empty());
        assert(table.drop_last().drop_last() =~= seq![table[0]]);
        assert(table.drop_last() =~= seq![table[0], table[1]]);
    }
}

} // verus!
