//! The route table and the matcher that selects routes for a raw request.

use crate::text::same_text;
use crate::text::starts_with;
use vstd::prelude::*;
use vstd::string::StringExecFns;
use vstd::utf8::encode_utf8;

verus! {

/// What a route says, as plain text.
pub struct RouteView {
    pub version: Seq<char>,
    pub path: Seq<char>,
    pub method: Seq<char>,
    pub reply: Seq<char>,
    pub filename: Seq<char>,
}

impl RouteView {
    /// The request line that the route answers: method, path and protocol
    /// version, each separated from the next by one space.
    pub open spec fn signature(self) -> Seq<char> {
        self.method + seq![' '] + self.path + seq![' '] + self.version
    }

    /// The signature as it appears on the wire.
    pub open spec fn signature_bytes(self) -> Seq<u8> {
        encode_utf8(self.signature())
    }

    /// Whether a request buffer begins with the route's signature.
    pub open spec fn accepts(self, buffer: Seq<u8>) -> bool {
        self.signature_bytes().is_prefix_of(buffer)
    }
}

/// A rule that maps a request signature to a canned reply: a status line and
/// the name of the file that holds the body.
#[derive(Debug, Copy, Clone)]
pub struct Route<'a> {
    version: &'a str,
    path: &'a str,
    method: &'a str,
    reply: &'a str,
    filename: &'a str,
}

impl<'a> View for Route<'a> {
    type V = RouteView;

    closed spec fn view(&self) -> RouteView {
        RouteView {
            version: self.version@,
            path: self.path@,
            method: self.method@,
            reply: self.reply@,
            filename: self.filename@,
        }
    }
}

impl<'a> Route<'a> {
    /// The route that answers the request line `method path version` with
    /// the status line `reply` and the contents of the file `filename`.
    pub fn new(
        version: &'a str,
        path: &'a str,
        method: &'a str,
        reply: &'a str,
        filename: &'a str,
    ) -> (route: Route<'a>)
        ensures
            route@ == (RouteView {
                version: version@,
                path: path@,
                method: method@,
                reply: reply@,
                filename: filename@,
            }),
    {
        Route { version, path, method, reply, filename }
    }

    /// The route's signature as an owned string.
    pub fn to_complete_string(&self) -> (check: String)
        ensures
            check@ == self@.signature(),
    {
        proof {
            reveal_strlit(" ");
        }
        let mut check = String::from_str(self.method);
        check.append(" ");
        check.append(self.path);
        check.append(" ");
        check.append(self.version);
        assert(" "@ =~= seq![' ']);
        check
    }

    /// The status line to answer with and the name of the file that holds the
    /// body.
    pub fn reply(&self) -> (answer: (&str, &str))
        ensures
            answer.0@ == self@.reply,
            answer.1@ == self@.filename,
    {
        (self.reply, self.filename)
    }

    /// Whether `buffer` begins with the route's signature.
    pub fn matches(&self, buffer: &[u8]) -> (found: bool)
        ensures
            found == self@.accepts(buffer@),
    {
        let check = self.to_complete_string();
        starts_with(buffer, check.as_str().as_bytes())
    }
}

/// An ordered route table. Order matters: the first declared route wins
/// wherever several accept one request.
pub type Routes<'a> = Vec<Route<'a>>;

/// Selects the routes whose protocol version is `version`.
pub open spec fn by_version<'a>(version: Seq<char>) -> spec_fn(Route<'a>) -> bool {
    |route: Route<'a>| route@.version == version
}

/// Selects the routes whose method is `method`.
pub open spec fn by_method<'a>(method: Seq<char>) -> spec_fn(Route<'a>) -> bool {
    |route: Route<'a>| route@.method == method
}

/// Selects the routes whose path is `path`.
pub open spec fn by_path<'a>(path: Seq<char>) -> spec_fn(Route<'a>) -> bool {
    |route: Route<'a>| route@.path == path
}

/// Selects the routes that accept `buffer`.
pub open spec fn by_buffer<'a>(buffer: Seq<u8>) -> spec_fn(Route<'a>) -> bool {
    |route: Route<'a>| route@.accepts(buffer)
}

/// Queries over a route table. Each returns every matching route, in table
/// order, and leaves the table as it was.
pub trait RoutesProperties {
    fn find_route_by_version(&mut self, version: &str) -> Routes;

    fn find_route_by_method(&self, method: &str) -> Routes;

    fn find_route_by_path(&self, path: &str) -> Routes;

    fn find_route_by_buffer(&self, buff: &[u8]) -> Routes;
}

impl<'a> RoutesProperties for Routes<'a> {
    fn find_route_by_version(&mut self, version: &str) -> (vec_routes: Routes)
        ensures
            final(self)@ == old(self)@,
            vec_routes@ == old(self)@.filter(by_version(version@)),
    {
        let mut vec_routes: Routes = vec![];
        let mut i: usize = 0;
        while i < self.len()
            invariant
                i <= self.len(),
                self@ == old(self)@,
                vec_routes@ == self@.take(i as int).filter(by_version(version@)),
            decreases self.len() - i,
        {
            let route = self[i];
            proof {
                lemma_filter_step(self@, i as int, by_version(version@));
            }
            if same_text(route.version, version) {
                vec_routes.push(route)
            }
            i += 1;
        }
        assert(self@.take(i as int) =~= self@);
        vec_routes
    }

    fn find_route_by_method(&self, method: &str) -> (vec_routes: Routes)
        ensures
            vec_routes@ == self@.filter(by_method(method@)),
    {
        let mut vec_routes: Routes = vec![];
        let mut i: usize = 0;
        while i < self.len()
            invariant
                i <= self.len(),
                vec_routes@ == self@.take(i as int).filter(by_method(method@)),
            decreases self.len() - i,
        {
            let route = self[i];
            proof {
                lemma_filter_step(self@, i as int, by_method(method@));
            }
            if same_text(route.method, method) {
                vec_routes.push(route)
            }
            i += 1;
        }
        assert(self@.take(i as int) =~= self@);
        vec_routes
    }

    fn find_route_by_path(&self, path: &str) -> (vec_routes: Routes)
        ensures
            vec_routes@ == self@.filter(by_path(path@)),
    {
        let mut vec_routes: Routes = vec![];
        let mut i: usize = 0;
        while i < self.len()
            invariant
                i <= self.len(),
                vec_routes@ == self@.take(i as int).filter(by_path(path@)),
            decreases self.len() - i,
        {
            let route = self[i];
            proof {
                lemma_filter_step(self@, i as int, by_path(path@));
            }
            if same_text(route.path, path) {
                vec_routes.push(route)
            }
            i += 1;
        }
        assert(self@.take(i as int) =~= self@);
        vec_routes
    }

    fn find_route_by_buffer(&self, buffer: &[u8]) -> (vec_routes: Routes)
        ensures
            vec_routes@ == self@.filter(by_buffer(buffer@)),
    {
        let mut vec_routes: Routes = vec![];
        let mut i: usize = 0;
        while i < self.len()
            invariant
                i <= self.len(),
                vec_routes@ == self@.take(i as int).filter(by_buffer(buffer@)),
            decreases self.len() - i,
        {
            let route = self[i];
            proof {
                lemma_filter_step(self@, i as int, by_buffer(buffer@));
            }
            if route.matches(buffer) {
                vec_routes.push(route)
            }
            i += 1;
        }
        assert(self@.take(i as int) =~= self@);
        vec_routes
    }
}

/// Selects the routes whose signature, as bytes, is `signature`.
pub open spec fn by_signature<'a>(signature: Seq<u8>) -> spec_fn(Route<'a>) -> bool {
    |route: Route<'a>| route@.signature_bytes() == signature
}

/// Whether route `i` of the table stands apart: every route of the table
/// either has the same signature, or a signature that neither begins with
/// nor is the beginning of the signature of route `i`.
pub open spec fn stands_apart<'a>(table: Seq<Route<'a>>, i: int) -> bool {
    forall|j: int|
        0 <= j < table.len() ==> {
            let own = table[i]@.signature_bytes();
            let other = (#[trigger] table[j])@.signature_bytes();
            other == own || (!other.is_prefix_of(own) && !own.is_prefix_of(other))
        }
}

/// A route accepts every request that begins with its signature, whatever
/// follows.
pub proof fn lemma_accepts_own_signature(route: RouteView, rest: Seq<u8>)
    ensures
        route.accepts(route.signature_bytes() + rest),
{
    let buffer = route.signature_bytes() + rest;
    assert(buffer.subrange(0, route.signature_bytes().len() as int) =~= route.signature_bytes());
}

/// Two routes accept one request only if the signature of one begins with
/// the signature of the other.
pub proof fn lemma_shared_request(route: RouteView, other: RouteView, buffer: Seq<u8>)
    requires
        route.accepts(buffer),
        other.accepts(buffer),
    ensures
        other.signature_bytes().is_prefix_of(route.signature_bytes())
            || route.signature_bytes().is_prefix_of(other.signature_bytes()),
{
    let a = route.signature_bytes();
    let b = other.signature_bytes();
    if a.len() <= b.len() {
        assert(a =~= b.subrange(0, a.len() as int));
    } else {
        assert(b =~= a.subrange(0, b.len() as int));
    }
}

/// Where the signature of one route begins with the signature of another,
/// some request is accepted by both: the one that spells the longer
/// signature.
pub proof fn lemma_overlap_shares_a_request(route: RouteView, other: RouteView) -> (buffer: Seq<u8>)
    requires
        other.signature_bytes().is_prefix_of(route.signature_bytes())
            || route.signature_bytes().is_prefix_of(other.signature_bytes()),
    ensures
        route.accepts(buffer),
        other.accepts(buffer),
{
    let a = route.signature_bytes();
    let b = other.signature_bytes();
    if b.is_prefix_of(a) {
        assert(a.subrange(0, a.len() as int) =~= a);
        a
    } else {
        assert(b.subrange(0, b.len() as int) =~= b);
        b
    }
}

/// A request that begins with the signature of a route that stands apart in
/// its table is matched by exactly the routes with that signature: by the
/// route itself and by no route with a different signature.
pub proof fn lemma_signature_selects<'a>(table: Seq<Route<'a>>, i: int, buffer: Seq<u8>)
    requires
        0 <= i < table.len(),
        stands_apart(table, i),
        table[i]@.accepts(buffer),
    ensures
        forall|j: int|
            0 <= j < table.len() ==> ((#[trigger] table[j])@.accepts(buffer)
                <==> table[j]@.signature_bytes() == table[i]@.signature_bytes()),
        table.filter(by_buffer(buffer)) == table.filter(by_signature(table[i]@.signature_bytes())),
        table.filter(by_buffer(buffer)).contains(table[i]),
{
    let own = table[i]@.signature_bytes();
    assert forall|j: int| 0 <= j < table.len() implies ((#[trigger] table[j])@.accepts(buffer)
        <==> table[j]@.signature_bytes() == own) by {
        if table[j]@.accepts(buffer) {
            lemma_shared_request(table[i]@, table[j]@, buffer);
        }
    }
    lemma_filter_agrees(table, by_buffer(buffer), by_signature(own));
    table.lemma_filter_contains(by_buffer(buffer), i);
}

/// The first element that a filter keeps is the first element of the
/// sequence that passes, and a filter keeps nothing only where nothing
/// passes.
pub proof fn lemma_filter_head<A>(s: Seq<A>, keep: spec_fn(A) -> bool)
    ensures
        s.filter(keep).len() == 0 <==> forall|i: int| 0 <= i < s.len() ==> !keep(#[trigger] s[i]),
        s.filter(keep).len() > 0 ==> exists|i: int|
            0 <= i < s.len() && keep(#[trigger] s[i]) && s.filter(keep)[0] == s[i] && forall|j: int|
                0 <= j < i ==> !keep(#[trigger] s[j]),
    decreases s.len(),
{
    reveal(Seq::filter);
    if s.len() > 0 {
        let front = s.drop_last();
        lemma_filter_head(front, keep);
        if front.filter(keep).len() > 0 {
            let i = choose|i: int|
                0 <= i < front.len() && keep(#[trigger] front[i]) && front.filter(keep)[0]
                    == front[i] && forall|j: int| 0 <= j < i ==> !keep(#[trigger] front[j]);
            assert(s[i] == front[i]);
            assert forall|j: int| 0 <= j < i implies !keep(#[trigger] s[j]) by {
                assert(s[j] == front[j]);
            }
        } else {
            assert forall|j: int| 0 <= j < s.len() - 1 implies !keep(#[trigger] s[j]) by {
                assert(s[j] == front[j]);
            }
            if keep(s.last()) {
                assert(s.filter(keep)[0] == s[s.len() - 1]);
            }
        }
    }
}

/// Two filters that agree on every element of a sequence keep the same
/// elements of it.
proof fn lemma_filter_agrees<A>(s: Seq<A>, left: spec_fn(A) -> bool, right: spec_fn(A) -> bool)
    requires
        forall|k: int| 0 <= k < s.len() ==> left(#[trigger] s[k]) == right(s[k]),
    ensures
        s.filter(left) == s.filter(right),
    decreases s.len(),
{
    reveal(Seq::filter);
    if s.len() > 0 {
        let front = s.drop_last();
        assert forall|k: int| 0 <= k < front.len() implies left(#[trigger] front[k]) == right(
            front[k],
        ) by {
            assert(front[k] == s[k]);
        }
        lemma_filter_agrees(front, left, right);
        assert(left(s[s.len() - 1]) == right(s[s.len() - 1]));
    }
}

/// Filtering one element more either appends that element or changes nothing.
proof fn lemma_filter_step<A>(s: Seq<A>, i: int, keep: spec_fn(A) -> bool)
    requires
        0 <= i < s.len(),
    ensures
        s.take(i + 1).filter(keep) == if keep(s[i]) {
            s.take(i).filter(keep).push(s[i])
        } else {
            s.take(i).filter(keep)
        },
{
    reveal(Seq::filter);
    assert(s.take(i + 1).drop_last() =~= s.take(i));
    assert(s.take(i + 1).last() == s[i]);
}

} // verus!
