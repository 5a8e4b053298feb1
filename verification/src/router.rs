//! The router: an ordered table of routes matched exactly by method and
//! path, and a table of URL prefixes under which files are served.

use crate::request::Request;
use crate::response::{
    content_length_of, default_headers, default_headers_map, headers_after_set,
    headers_map_after_set, lemma_content_type_is_not_content_length, lemma_default_headers,
    lemma_headers_after_set, lemma_names_differ, Response,
};
use crate::text::{
    chars_of, has_prefix, lemma_rfind_char_concat, push_range, push_text, rfind_char,
    rfind_char_in, same_text, split, split_chars, string_of, texts_of,
};
use crate::text_map::{pair_keys, pairs_map, set_pair, TextMap};
use vstd::prelude::*;

verus! {

/// One route: a method, an exact path, and what answers requests for them.
pub struct Route<H> {
    pub method: String,
    pub path: String,
    pub handler: H,
}

/// The routes in the order in which they were registered, and the static
/// mappings from URL prefix to base directory. Every handler in the table
/// accepts every request.
pub struct Router<H: Fn(&Request) -> Response> {
    routes: Vec<Route<H>>,
    static_routes: TextMap<String>,
}

/// What the router decides for a request, as its caller receives it.
pub enum Dispatch {
    /// The route at this position answers.
    Route(usize),
    /// The file at this path is to be served.
    File(String),
    /// A static mapping matched, and the rest of the path has a `..` segment.
    Rejected,
    /// Neither a route nor a static mapping matched.
    NotFound,
}

impl View for Dispatch {
    type V = Decision;

    open spec fn view(&self) -> Decision {
        match *self {
            Dispatch::Route(i) => Decision::Route(i as int),
            Dispatch::File(path) => Decision::File(path@),
            Dispatch::Rejected => Decision::Rejected,
            Dispatch::NotFound => Decision::NotFound,
        }
    }
}

/// How far the router got with a request: it has the response, or it needs
/// a file read first.
pub enum Outcome {
    /// The response to send.
    Respond(Response),
    /// The file to read; its content, or the failure to read it, then makes
    /// the response.
    ServeFile(String),
}

/// What came of reading a file.
pub enum FileRead {
    /// There is no regular file at the path.
    Missing,
    /// The file is there and could not be read as text.
    Unreadable,
    /// The content of the file.
    Content(String),
}

/// What the router decides for a request.
pub enum Decision {
    /// The route at this position answers.
    Route(int),
    /// The file at this path is to be served.
    File(Seq<char>),
    /// A static mapping matched, and the rest of the path has a `..` segment.
    Rejected,
    /// Neither a route nor a static mapping matched.
    NotFound,
}

/// The position of the first route at or after `from` with this method and
/// path, both compared character by character; the number of routes where
/// there is none.
pub open spec fn first_route(
    keys: Seq<(Seq<char>, Seq<char>)>,
    method: Seq<char>,
    path: Seq<char>,
    from: int,
) -> int
    decreases keys.len() - from,
{
    if from >= keys.len() {
        keys.len() as int
    } else if keys[from] == (method, path) {
        from
    } else {
        first_route(keys, method, path, from + 1)
    }
}

/// The position of the first static mapping at or after `from` whose URL
/// prefix begins `path`; the number of mappings where there is none.
pub open spec fn first_static(prefixes: Seq<Seq<char>>, path: Seq<char>, from: int) -> int
    decreases prefixes.len() - from,
{
    if from >= prefixes.len() {
        prefixes.len() as int
    } else if prefixes[from].is_prefix_of(path) {
        from
    } else {
        first_static(prefixes, path, from + 1)
    }
}

/// `s` without the slashes it begins with, from position `i` on.
pub open spec fn without_leading_slashes(s: Seq<char>, i: int) -> Seq<char>
    decreases s.len() - i,
{
    if i >= s.len() {
        Seq::empty()
    } else if s[i] == '/' {
        without_leading_slashes(s, i + 1)
    } else {
        s.subrange(i, s.len() as int)
    }
}

/// The file that a static mapping to `base` serves for the rest `rest` of a
/// request path: the rest, without leading slashes, under the base directory.
pub open spec fn static_file_path(base: Seq<char>, rest: Seq<char>) -> Seq<char> {
    base + seq!['/'] + without_leading_slashes(rest, 0)
}

/// Whether one of the `/`-separated segments of `rest` is `..`.
pub open spec fn climbs(rest: Seq<char>) -> bool {
    split(rest, '/').contains(seq!['.', '.'])
}

/// The decision for a request with this method and path: the first route
/// that matches both exactly; else the first static mapping whose prefix
/// begins the path; else nothing.
pub open spec fn decide(
    keys: Seq<(Seq<char>, Seq<char>)>,
    statics: Seq<(Seq<char>, Seq<char>)>,
    method: Seq<char>,
    path: Seq<char>,
) -> Decision {
    let route = first_route(keys, method, path, 0);
    let prefixes = statics.map_values(|m: (Seq<char>, Seq<char>)| m.0);
    let mapping = first_static(prefixes, path, 0);
    if route < keys.len() {
        Decision::Route(route)
    } else if mapping < statics.len() {
        let rest = path.subrange(statics[mapping].0.len() as int, path.len() as int);
        if climbs(rest) {
            Decision::Rejected
        } else {
            Decision::File(static_file_path(statics[mapping].1, rest))
        }
    } else {
        Decision::NotFound
    }
}

/// A route that matches is found, and it is the first that matches.
pub proof fn lemma_first_route(
    keys: Seq<(Seq<char>, Seq<char>)>,
    method: Seq<char>,
    path: Seq<char>,
    from: int,
)
    requires
        0 <= from <= keys.len(),
    ensures
        from <= first_route(keys, method, path, from) <= keys.len(),
        forall|k: int|
            from <= k < first_route(keys, method, path, from) ==> keys[k] != (method, path),
        first_route(keys, method, path, from) < keys.len() ==> keys[first_route(
            keys,
            method,
            path,
            from,
        )] == (method, path),
    decreases keys.len() - from,
{
    if from < keys.len() && keys[from] != (method, path) {
        lemma_first_route(keys, method, path, from + 1);
    }
}

/// A static mapping whose prefix begins the path is found, and it is the
/// first such.
pub proof fn lemma_first_static(prefixes: Seq<Seq<char>>, path: Seq<char>, from: int)
    requires
        0 <= from <= prefixes.len(),
    ensures
        from <= first_static(prefixes, path, from) <= prefixes.len(),
        forall|k: int|
            from <= k < first_static(prefixes, path, from) ==> !prefixes[k].is_prefix_of(path),
        first_static(prefixes, path, from) < prefixes.len() ==> prefixes[first_static(
            prefixes,
            path,
            from,
        )].is_prefix_of(path),
    decreases prefixes.len() - from,
{
    if from < prefixes.len() && !prefixes[from].is_prefix_of(path) {
        lemma_first_static(prefixes, path, from + 1);
    }
}

/// Routes match exactly: where a route is decided on, its method and its
/// path are those of the request, character by character, and no route
/// before it has both.
pub proof fn lemma_route_matches_exactly(
    keys: Seq<(Seq<char>, Seq<char>)>,
    statics: Seq<(Seq<char>, Seq<char>)>,
    method: Seq<char>,
    path: Seq<char>,
)
    ensures
        decide(keys, statics, method, path) matches Decision::Route(i) ==> {
            &&& 0 <= i < keys.len()
            &&& keys[i] == (method, path)
            &&& forall|j: int| 0 <= j < i ==> keys[j] != (method, path)
        },
{
    lemma_first_route(keys, method, path, 0);
}

/// A route that is registered answers the requests for its method and path:
/// after it is added to any table, such a request is decided for a route
/// with this method and path, and for the new route itself where no route
/// before it has both.
pub proof fn lemma_registered_route_answers(
    keys: Seq<(Seq<char>, Seq<char>)>,
    statics: Seq<(Seq<char>, Seq<char>)>,
    method: Seq<char>,
    path: Seq<char>,
)
    ensures
        decide(keys.push((method, path)), statics, method, path) matches Decision::Route(i)
            && 0 <= i <= keys.len() && keys.push((method, path))[i] == (method, path),
        (forall|j: int| 0 <= j < keys.len() ==> keys[j] != (method, path)) ==> decide(
            keys.push((method, path)),
            statics,
            method,
            path,
        ) == Decision::Route(keys.len() as int),
{
    let table = keys.push((method, path));
    lemma_first_route(table, method, path, 0);
    assert(table[keys.len() as int] == (method, path));
}

/// The first route wins: of two routes with the method and path of a
/// request, the later one is never decided on.
pub proof fn lemma_first_route_wins(
    keys: Seq<(Seq<char>, Seq<char>)>,
    statics: Seq<(Seq<char>, Seq<char>)>,
    method: Seq<char>,
    path: Seq<char>,
    first: int,
    second: int,
)
    requires
        0 <= first < second < keys.len(),
        keys[first] == (method, path),
        keys[second] == (method, path),
    ensures
        decide(keys, statics, method, path) matches Decision::Route(i) && i <= first,
        decide(keys, statics, method, path) != Decision::Route(second),
{
    lemma_first_route(keys, method, path, 0);
}

/// A request that no route matches and no static prefix begins is not found.
pub proof fn lemma_unmatched_is_not_found(
    keys: Seq<(Seq<char>, Seq<char>)>,
    statics: Seq<(Seq<char>, Seq<char>)>,
    method: Seq<char>,
    path: Seq<char>,
)
    requires
        forall|i: int| 0 <= i < keys.len() ==> keys[i] != (method, path),
        forall|i: int| 0 <= i < statics.len() ==> !statics[i].0.is_prefix_of(path),
    ensures
        decide(keys, statics, method, path) == Decision::NotFound,
{
    lemma_first_route(keys, method, path, 0);
    let prefixes = statics.map_values(|m: (Seq<char>, Seq<char>)| m.0);
    lemma_first_static(prefixes, path, 0);
}

/// A static mapping never serves a path that climbs out of its directory:
/// the file that is decided on lies under the base directory of a mapping
/// whose prefix begins the path, and the rest of the path has no `..`
/// segment.
pub proof fn lemma_served_file_does_not_climb(
    keys: Seq<(Seq<char>, Seq<char>)>,
    statics: Seq<(Seq<char>, Seq<char>)>,
    method: Seq<char>,
    path: Seq<char>,
)
    ensures
        decide(keys, statics, method, path) matches Decision::File(file) ==> exists|i: int|
            0 <= i < statics.len() && (#[trigger] statics[i]).0.is_prefix_of(path) && !climbs(
                path.subrange(statics[i].0.len() as int, path.len() as int),
            ) && file == static_file_path(
                statics[i].1,
                path.subrange(statics[i].0.len() as int, path.len() as int),
            ),
{
    let prefixes = statics.map_values(|m: (Seq<char>, Seq<char>)| m.0);
    lemma_first_static(prefixes, path, 0);
    if decide(keys, statics, method, path) is File {
        let i = first_static(prefixes, path, 0);
        assert(prefixes[i] == statics[i].0);
    }
}

/// The first static mapping whose prefix begins the path serves it: where
/// no route matches a request and the prefix of some mapping begins its
/// path, the decision is for the first such mapping. The file is the rest of
/// the path under that mapping's directory, unless the rest climbs.
pub proof fn lemma_static_mapping_serves(
    keys: Seq<(Seq<char>, Seq<char>)>,
    statics: Seq<(Seq<char>, Seq<char>)>,
    method: Seq<char>,
    path: Seq<char>,
    i: int,
)
    requires
        forall|j: int| 0 <= j < keys.len() ==> keys[j] != (method, path),
        0 <= i < statics.len(),
        statics[i].0.is_prefix_of(path),
    ensures
        ({
            let first = first_static(
                statics.map_values(|m: (Seq<char>, Seq<char>)| m.0),
                path,
                0,
            );
            let rest = path.subrange(statics[first].0.len() as int, path.len() as int);
            &&& 0 <= first <= i
            &&& statics[first].0.is_prefix_of(path)
            &&& (forall|j: int| 0 <= j < i ==> !statics[j].0.is_prefix_of(path)) ==> first == i
            &&& decide(keys, statics, method, path) == if climbs(rest) {
                Decision::Rejected
            } else {
                Decision::File(static_file_path(statics[first].1, rest))
            }
        }),
{
    lemma_first_route(keys, method, path, 0);
    let prefixes = statics.map_values(|m: (Seq<char>, Seq<char>)| m.0);
    lemma_first_static(prefixes, path, 0);
    let first = first_static(prefixes, path, 0);
    assert(prefixes[i] == statics[i].0);
    if first < statics.len() {
        assert(prefixes[first] == statics[first].0);
    }
    if forall|j: int| 0 <= j < i ==> !statics[j].0.is_prefix_of(path) {
        if first < i {
            assert(prefixes[first] == statics[first].0);
        }
    }
}

/// A prefix that is registered serves the paths that it begins: after the
/// prefix is mapped to a directory, a request that no route matches, and
/// whose path is begun by this prefix and by no other mapped prefix, is
/// decided for the rest of its path under that directory.
pub proof fn lemma_registered_prefix_serves(
    keys: Seq<(Seq<char>, Seq<char>)>,
    statics: Seq<(Seq<char>, Seq<char>)>,
    prefix: Seq<char>,
    directory: Seq<char>,
    method: Seq<char>,
    path: Seq<char>,
)
    requires
        pair_keys(statics).no_duplicates(),
        forall|j: int| 0 <= j < keys.len() ==> keys[j] != (method, path),
        prefix.is_prefix_of(path),
        forall|j: int|
            0 <= j < statics.len() && statics[j].0 != prefix ==> !(
            #[trigger] statics[j]).0.is_prefix_of(path),
    ensures
        decide(keys, set_pair(statics, prefix, directory), method, path) == if climbs(
            path.subrange(prefix.len() as int, path.len() as int),
        ) {
            Decision::Rejected
        } else {
            Decision::File(
                static_file_path(
                    directory,
                    path.subrange(prefix.len() as int, path.len() as int),
                ),
            )
        },
{
    let after = set_pair(statics, prefix, directory);
    let at = if pair_keys(statics).contains(prefix) {
        pair_keys(statics).index_of(prefix)
    } else {
        statics.len() as int
    };
    assert(after[at] == (prefix, directory));
    assert forall|j: int| 0 <= j < at implies !(#[trigger] after[j]).0.is_prefix_of(path) by {
        assert(after[j] == statics[j]);
        assert(pair_keys(statics)[j] == statics[j].0);
        if pair_keys(statics).contains(prefix) {
            assert(pair_keys(statics)[at] == prefix);
        }
    }
    lemma_static_mapping_serves(keys, after, method, path, at);
}

/// A file under a static prefix is served with the content type of its
/// extension: where no route matches a request, the prefix of a mapping
/// begins its path and the rest of the path does not climb, the file of the
/// first such mapping is decided on, and the response that serves its
/// content carries the content type of the rest of the path and the length
/// of the content.
pub proof fn lemma_static_file_is_served(
    keys: Seq<(Seq<char>, Seq<char>)>,
    statics: Seq<(Seq<char>, Seq<char>)>,
    method: Seq<char>,
    path: Seq<char>,
    i: int,
    content: Seq<char>,
)
    requires
        forall|j: int| 0 <= j < keys.len() ==> keys[j] != (method, path),
        0 <= i < statics.len(),
        statics[i].0.is_prefix_of(path),
        !climbs(
            path.subrange(
                statics[first_static(
                    statics.map_values(|m: (Seq<char>, Seq<char>)| m.0),
                    path,
                    0,
                )].0.len() as int,
                path.len() as int,
            ),
        ),
    ensures
        ({
            let first = first_static(
                statics.map_values(|m: (Seq<char>, Seq<char>)| m.0),
                path,
                0,
            );
            let rest = path.subrange(statics[first].0.len() as int, path.len() as int);
            let file = static_file_path(statics[first].1, rest);
            let headers = pairs_map(file_headers(file, content));
            &&& decide(keys, statics, method, path) == Decision::File(file)
            &&& headers.contains_key("Content-Type"@)
            &&& headers["Content-Type"@] == file_content_type(rest)
            &&& headers.contains_key("Content-Length"@)
            &&& headers["Content-Length"@] == content_length_of(content)
        }),
{
    lemma_static_mapping_serves(keys, statics, method, path, i);
    let first = first_static(statics.map_values(|m: (Seq<char>, Seq<char>)| m.0), path, 0);
    let rest = path.subrange(statics[first].0.len() as int, path.len() as int);
    lemma_static_file_type(statics[first].1, rest);
    lemma_file_headers(static_file_path(statics[first].1, rest), content);
}

impl<H: Fn(&Request) -> Response> Router<H> {
    #[verifier::type_invariant]
    spec fn handlers_accept_all(self) -> bool {
        forall|i: int, request: &Request|
            0 <= i < self.routes@.len() ==> #[trigger] call_requires(
                self.routes@[i].handler,
                (request,),
            )
    }

    /// The routes, in the order in which they were registered.
    pub closed spec fn routes(&self) -> Seq<Route<H>> {
        self.routes@
    }

    /// The method and path of each route, in order.
    pub open spec fn route_keys(&self) -> Seq<(Seq<char>, Seq<char>)> {
        self.routes().map_values(|r: Route<H>| (r.method@, r.path@))
    }

    /// The static mappings as pairs of URL prefix and base directory, in the
    /// order in which their prefixes first came.
    pub closed spec fn static_mappings(&self) -> Seq<(Seq<char>, Seq<char>)> {
        self.static_routes.pairs()
    }

    /// The decision for `request`.
    pub open spec fn decision(&self, request: &Request) -> Decision {
        decide(self.route_keys(), self.static_mappings(), request.method@, request.path@)
    }

    /// Whether `outcome` answers `request` as this router's tables say: with
    /// what the handler of the deciding route returned for the request, with
    /// the file to read, or with the fixed response for what was not found.
    pub open spec fn answers(&self, request: &Request, outcome: Outcome) -> bool {
        match self.decision(request) {
            Decision::Route(i) => outcome matches Outcome::Respond(response) && call_ensures(
                self.routes()[i].handler,
                (request,),
                response,
            ),
            Decision::File(path) => outcome matches Outcome::ServeFile(file) && file@ == path,
            Decision::Rejected => outcome matches Outcome::Respond(response)
                && response.is_plain(404, "Not Found"@, "File not found"@),
            Decision::NotFound => outcome matches Outcome::Respond(response)
                && response.is_plain(404, "Not Found"@, "Page not found"@),
        }
    }

    /// A router with no routes and no static mappings.
    pub fn new() -> (router: Self)
        ensures
            router.routes().len() == 0,
            router.static_mappings().len() == 0,
    {
        Router { routes: Vec::new(), static_routes: TextMap::new() }
    }

    /// Registers `handler` for `GET` requests to exactly `path`.
    pub fn get(&mut self, path: &str, handler: H)
        requires
            forall|request: &Request| call_requires(handler, (request,)),
        ensures
            final(self).routes().len() == old(self).routes().len() + 1,
            final(self).routes().drop_last() == old(self).routes(),
            final(self).routes().last().handler == handler,
            final(self).route_keys() == old(self).route_keys().push(("GET"@, path@)),
            final(self).static_mappings() == old(self).static_mappings(),
    {
        self.register("GET", path, handler);
    }

    /// Registers `handler` for `POST` requests to exactly `path`.
    pub fn post(&mut self, path: &str, handler: H)
        requires
            forall|request: &Request| call_requires(handler, (request,)),
        ensures
            final(self).routes().len() == old(self).routes().len() + 1,
            final(self).routes().drop_last() == old(self).routes(),
            final(self).routes().last().handler == handler,
            final(self).route_keys() == old(self).route_keys().push(("POST"@, path@)),
            final(self).static_mappings() == old(self).static_mappings(),
    {
        self.register("POST", path, handler);
    }

    /// Registers `handler` for `PUT` requests to exactly `path`.
    pub fn put(&mut self, path: &str, handler: H)
        requires
            forall|request: &Request| call_requires(handler, (request,)),
        ensures
            final(self).routes().len() == old(self).routes().len() + 1,
            final(self).routes().drop_last() == old(self).routes(),
            final(self).routes().last().handler == handler,
            final(self).route_keys() == old(self).route_keys().push(("PUT"@, path@)),
            final(self).static_mappings() == old(self).static_mappings(),
    {
        self.register("PUT", path, handler);
    }

    /// Registers `handler` for `DELETE` requests to exactly `path`.
    pub fn delete(&mut self, path: &str, handler: H)
        requires
            forall|request: &Request| call_requires(handler, (request,)),
        ensures
            final(self).routes().len() == old(self).routes().len() + 1,
            final(self).routes().drop_last() == old(self).routes(),
            final(self).routes().last().handler == handler,
            final(self).route_keys() == old(self).route_keys().push(("DELETE"@, path@)),
            final(self).static_mappings() == old(self).static_mappings(),
    {
        self.register("DELETE", path, handler);
    }

    /// Registers `handler` for requests with exactly this method and path.
    /// The route goes to the end of the table.
    pub fn register(&mut self, method: &str, path: &str, handler: H)
        requires
            forall|request: &Request| call_requires(handler, (request,)),
        ensures
            final(self).routes().len() == old(self).routes().len() + 1,
            final(self).routes().drop_last() == old(self).routes(),
            final(self).routes().last().handler == handler,
            final(self).route_keys() == old(self).route_keys().push((method@, path@)),
            final(self).static_mappings() == old(self).static_mappings(),
    {
        proof {
            use_type_invariant(&*self);
        }
        let ghost before = *self;
        let mut routes: Vec<Route<H>> = Vec::new();
        core::mem::swap(&mut self.routes, &mut routes);
        routes.push(Route { method: method.to_owned(), path: path.to_owned(), handler });
        self.routes = routes;
        assert(self.routes().drop_last() =~= before.routes());
        assert(self.route_keys() =~= before.route_keys().push((method@, path@)));
    }

    /// Maps the URL prefix `route_path` to the base directory `file_path`. A
    /// prefix that is mapped already keeps its place and takes the new
    /// directory.
    pub fn static_files(&mut self, route_path: &str, file_path: &str)
        ensures
            final(self).routes() == old(self).routes(),
            final(self).static_mappings() == set_pair(
                old(self).static_mappings(),
                route_path@,
                file_path@,
            ),
            pair_keys(final(self).static_mappings()).no_duplicates(),
    {
        proof {
            use_type_invariant(&*self);
        }
        let mut statics: TextMap<String> = TextMap::new();
        core::mem::swap(&mut self.static_routes, &mut statics);
        statics.set(route_path, file_path);
        proof {
            statics.lemma_texts_are_pairs();
        }
        self.static_routes = statics;
    }

    /// Whether a route's path matches the path of a request: the two are the
    /// same, character by character.
    pub fn path_matches(&self, route_path: &str, request_path: &str) -> (same: bool)
        ensures
            same == (route_path@ == request_path@),
    {
        same_text(route_path, request_path)
    }

    /// The position of the first route with this method and path; the number
    /// of routes where there is none.
    fn find_route(&self, method: &str, path: &str) -> (at: usize)
        ensures
            at == first_route(self.route_keys(), method@, path@, 0),
            at <= self.routes().len(),
    {
        let mut i: usize = 0;
        while i < self.routes.len()
            invariant
                i <= self.routes.len(),
                first_route(self.route_keys(), method@, path@, 0) == first_route(
                    self.route_keys(),
                    method@,
                    path@,
                    i as int,
                ),
            decreases self.routes.len() - i,
        {
            let route = &self.routes[i];
            if same_text(route.method.as_str(), method) && self.path_matches(
                route.path.as_str(),
                path,
            ) {
                return i;
            }
            i += 1;
        }
        i
    }

    /// The position of the first static mapping whose prefix begins `path`;
    /// the number of mappings where there is none.
    fn find_static(&self, path: &Vec<char>) -> (at: usize)
        ensures
            at == first_static(
                self.static_mappings().map_values(|m: (Seq<char>, Seq<char>)| m.0),
                path@,
                0,
            ),
            at <= self.static_mappings().len(),
            self.static_mappings().len() == self.static_routes.keys().len(),
    {
        let n = self.static_routes.len();
        let ghost prefixes = self.static_mappings().map_values(|m: (Seq<char>, Seq<char>)| m.0);
        let mut i: usize = 0;
        while i < n
            invariant
                i <= n,
                n == self.static_routes.keys().len(),
                prefixes == self.static_mappings().map_values(|m: (Seq<char>, Seq<char>)| m.0),
                prefixes.len() == n,
                first_static(prefixes, path@, 0) == first_static(prefixes, path@, i as int),
            decreases n - i,
        {
            let prefix = chars_of(self.static_routes.key_at(i).as_str());
            assert(prefixes[i as int] == prefix@);
            if has_prefix(path, &prefix) {
                return i;
            }
            i += 1;
        }
        i
    }

    /// Decides what answers `request`: the first route that matches its
    /// method and path exactly, else the first static mapping whose prefix
    /// begins its path, else nothing.
    pub fn dispatch(&self, request: &Request) -> (dispatch: Dispatch)
        ensures
            dispatch@ == self.decision(request),
    {
        let route = self.find_route(request.method.as_str(), request.path.as_str());
        if route < self.routes.len() {
            return Dispatch::Route(route);
        }
        let path = chars_of(request.path.as_str());
        let mapping = self.find_static(&path);
        if mapping < self.static_routes.len() {
            let prefix = chars_of(self.static_routes.key_at(mapping).as_str());
            let base = self.static_routes.value_at(mapping);
            proof {
                lemma_first_static(
                    self.static_mappings().map_values(|m: (Seq<char>, Seq<char>)| m.0),
                    path@,
                    0,
                );
            }
            let mut rest: Vec<char> = Vec::new();
            push_range(&mut rest, &path, prefix.len(), path.len());
            if has_parent_segment(&rest) {
                Dispatch::Rejected
            } else {
                Dispatch::File(join_static_path(base.as_str(), &rest))
            }
        } else {
            Dispatch::NotFound
        }
    }

    /// Answers `request` as far as can be done without reading a file. The
    /// handler of the first matching route is called with the request, and
    /// its response is the answer. Where a static mapping serves the request,
    /// the file to read is handed back.
    pub fn handle_request(&self, request: &Request) -> (outcome: Outcome)
        ensures
            self.answers(request, outcome),
    {
        proof {
            use_type_invariant(self);
        }
        match self.dispatch(request) {
            Dispatch::Route(i) => {
                proof {
                    lemma_first_route(self.route_keys(), request.method@, request.path@, 0);
                }
                Outcome::Respond((self.routes[i].handler)(request))
            },
            Dispatch::File(file) => Outcome::ServeFile(file),
            Dispatch::Rejected => Outcome::Respond(
                Response::new(404, "Not Found", "File not found"),
            ),
            Dispatch::NotFound => Outcome::Respond(
                Response::new(404, "Not Found", "Page not found"),
            ),
        }
    }
}

/// The last component of a file path: what stands after its last `/`.
pub open spec fn file_name(path: Seq<char>) -> Seq<char> {
    path.subrange(rfind_char(path, '/') + 1, path.len() as int)
}

/// The extension of a file path: what stands after the last `.` of its file
/// name, where the name has a `.` that is not its first character.
pub open spec fn extension(path: Seq<char>) -> Option<Seq<char>> {
    let name = file_name(path);
    let dot = rfind_char(name, '.');
    if dot <= 0 {
        None
    } else {
        Some(name.subrange(dot + 1, name.len() as int))
    }
}

/// The content type for a file extension.
pub open spec fn content_type(ext: Seq<char>) -> Seq<char> {
    if ext == "html"@ {
        "text/html"@
    } else if ext == "css"@ {
        "text/css"@
    } else if ext == "js"@ {
        "application/javascript"@
    } else if ext == "json"@ {
        "application/json"@
    } else if ext == "png"@ {
        "image/png"@
    } else if ext == "jpg"@ || ext == "jpeg"@ {
        "image/jpeg"@
    } else if ext == "gif"@ {
        "image/gif"@
    } else {
        "text/plain"@
    }
}

/// The content type of a file: that of its extension, and plain text where
/// it has none.
pub open spec fn file_content_type(path: Seq<char>) -> Seq<char> {
    match extension(path) {
        Some(ext) => content_type(ext),
        None => "text/plain"@,
    }
}

/// The headers of the response that serves `content` from the file at
/// `path`: the default ones, with the content type of the file.
pub open spec fn file_headers(path: Seq<char>, content: Seq<char>) -> Seq<(Seq<char>, Seq<char>)> {
    headers_after_set(default_headers(content), "Content-Type"@, file_content_type(path), content)
}

/// The headers of a served file by name: the content type of the file and
/// the length of the content.
pub proof fn lemma_file_headers(path: Seq<char>, content: Seq<char>)
    ensures
        pairs_map(file_headers(path, content)) == headers_map_after_set(
            default_headers_map(content),
            "Content-Type"@,
            file_content_type(path),
            content,
        ),
        pairs_map(file_headers(path, content)).contains_key("Content-Type"@),
        pairs_map(file_headers(path, content))["Content-Type"@] == file_content_type(path),
        pairs_map(file_headers(path, content)).contains_key("Content-Length"@),
        pairs_map(file_headers(path, content))["Content-Length"@] == content_length_of(content),
{
    lemma_default_headers(content);
    lemma_headers_after_set(
        default_headers(content),
        "Content-Type"@,
        file_content_type(path),
        content,
    );
    lemma_content_type_is_not_content_length();
    lemma_names_differ();
}

/// The name of a file does not depend on what stands before a slash: the
/// file name of `before`, a slash and `after` is the file name of `after`.
pub proof fn lemma_file_name_after_slash(before: Seq<char>, after: Seq<char>)
    ensures
        file_name(before + seq!['/'] + after) == file_name(after),
{
    let head = before + seq!['/'];
    lemma_rfind_char_concat(head, after, '/');
    let at = rfind_char(after, '/');
    if at >= 0 {
        assert((head + after).subrange(head.len() + at + 1, (head + after).len() as int)
            =~= after.subrange(at + 1, after.len() as int));
    } else {
        assert(head.last() == '/');
        assert(rfind_char(head, '/') == head.len() - 1);
        assert((head + after).subrange(head.len() as int, (head + after).len() as int)
            =~= after.subrange(0, after.len() as int));
    }
}

/// Slashes at the start of a path do not change its file name.
pub proof fn lemma_file_name_without_leading_slashes(s: Seq<char>, i: int)
    requires
        0 <= i <= s.len(),
        forall|j: int| 0 <= j < i ==> s[j] == '/',
    ensures
        file_name(without_leading_slashes(s, i)) == file_name(s),
    decreases s.len() - i,
{
    if i >= s.len() {
        if s.len() > 0 {
            assert(s.last() == '/');
        }
        assert(file_name(s) =~= Seq::<char>::empty());
        assert(file_name(Seq::<char>::empty()) =~= Seq::<char>::empty());
    } else if s[i] == '/' {
        lemma_file_name_without_leading_slashes(s, i + 1);
    } else {
        let head = s.subrange(0, i);
        let tail = s.subrange(i, s.len() as int);
        assert(head + tail =~= s);
        lemma_rfind_char_concat(head, tail, '/');
        let at = rfind_char(tail, '/');
        if at >= 0 {
            assert(s.subrange(i + at + 1, s.len() as int) =~= tail.subrange(
                at + 1,
                tail.len() as int,
            ));
        } else if i > 0 {
            assert(head.last() == '/');
            assert(rfind_char(head, '/') == i - 1);
            assert(s.subrange(i, s.len() as int) =~= tail.subrange(0, tail.len() as int));
        } else {
            assert(head =~= Seq::<char>::empty());
            assert(tail =~= s);
        }
    }
}

/// The file that is served has the file name, and so the extension and the
/// content type, of the rest of the request path.
pub proof fn lemma_static_file_type(base: Seq<char>, rest: Seq<char>)
    ensures
        file_name(static_file_path(base, rest)) == file_name(rest),
        extension(static_file_path(base, rest)) == extension(rest),
        file_content_type(static_file_path(base, rest)) == file_content_type(rest),
{
    lemma_file_name_after_slash(base, without_leading_slashes(rest, 0));
    lemma_file_name_without_leading_slashes(rest, 0);
}

/// The extension of a file path, if it has one.
pub fn extension_of(path: &str) -> (ext: Option<String>)
    ensures
        match ext {
            Some(e) => extension(path@) == Some(e@),
            None => extension(path@) is None,
        },
{
    let chars = chars_of(path);
    let start = match rfind_char_in(&chars, '/', chars.len()) {
        Some(slash) => slash + 1,
        None => 0,
    };
    assert(chars@.take(chars@.len() as int) == chars@);
    let mut name: Vec<char> = Vec::new();
    push_range(&mut name, &chars, start, chars.len());
    assert(name@ == file_name(path@));
    assert(name@.take(name@.len() as int) == name@);
    match rfind_char_in(&name, '.', name.len()) {
        Some(dot) => {
            if dot == 0 {
                None
            } else {
                let mut ext: Vec<char> = Vec::new();
                push_range(&mut ext, &name, dot + 1, name.len());
                Some(string_of(&ext))
            }
        },
        None => None,
    }
}

/// The content type for a file extension.
pub fn content_type_of(ext: &str) -> (kind: &'static str)
    ensures
        kind@ == content_type(ext@),
{
    if same_text(ext, "html") {
        "text/html"
    } else if same_text(ext, "css") {
        "text/css"
    } else if same_text(ext, "js") {
        "application/javascript"
    } else if same_text(ext, "json") {
        "application/json"
    } else if same_text(ext, "png") {
        "image/png"
    } else if same_text(ext, "jpg") || same_text(ext, "jpeg") {
        "image/jpeg"
    } else if same_text(ext, "gif") {
        "image/gif"
    } else {
        "text/plain"
    }
}

/// The content type of the file at `file_path`.
pub fn content_type_for(file_path: &str) -> (kind: &'static str)
    ensures
        kind@ == file_content_type(file_path@),
{
    match extension_of(file_path) {
        Some(ext) => content_type_of(ext.as_str()),
        None => "text/plain",
    }
}

/// The response that serves the file at `file_path`, given what came of
/// reading it: its content with status 200 and the content type of its
/// extension, plain text where it has none; 404 where the file is missing,
/// 500 where it could not be read.
pub fn serve_static_file(file_path: &str, read: FileRead) -> (response: Response)
    ensures
        match read {
            FileRead::Missing => response.is_plain(404, "Not Found"@, "File not found"@),
            FileRead::Unreadable => response.is_plain(
                500,
                "Internal Server Error"@,
                "Could not read the file"@,
            ),
            FileRead::Content(content) => {
                &&& response.status_code == 200
                &&& response.status_text@ == "OK"@
                &&& response.body@ == content@
                &&& response.headers.pairs() == file_headers(file_path@, content@)
                &&& response.headers.texts() == pairs_map(file_headers(file_path@, content@))
                &&& response.header("Content-Type"@) == Some(file_content_type(file_path@))
                &&& response.header("Content-Length"@) == Some(content_length_of(content@))
            },
        },
{
    match read {
        FileRead::Missing => Response::new(404, "Not Found", "File not found"),
        FileRead::Unreadable => Response::new(
            500,
            "Internal Server Error",
            "Could not read the file",
        ),
        FileRead::Content(content) => {
            let mut response = Response::new(200, "OK", content.as_str());
            response.set_header("Content-Type", content_type_for(file_path));
            proof {
                lemma_file_headers(file_path@, content@);
            }
            response
        },
    }
}

impl<H: Fn(&Request) -> Response> Default for Router<H> {
    /// A router with no routes and no static mappings.
    fn default() -> (router: Self)
        ensures
            router.routes().len() == 0,
            router.static_mappings().len() == 0,
    {
        Self::new()
    }
}

/// Whether one of the `/`-separated segments of `rest` is `..`.
pub fn has_parent_segment(rest: &Vec<char>) -> (found: bool)
    ensures
        found == climbs(rest@),
{
    let segments = split_chars(rest, '/');
    let mut i: usize = 0;
    while i < segments.len()
        invariant
            i <= segments.len(),
            texts_of(segments@) == split(rest@, '/'),
            forall|k: int| 0 <= k < i ==> split(rest@, '/')[k] != seq!['.', '.'],
        decreases segments.len() - i,
    {
        assert(texts_of(segments@)[i as int] == segments@[i as int]@);
        if segments[i].len() == 2 && segments[i][0] == '.' && segments[i][1] == '.' {
            assert(segments@[i as int]@ =~= seq!['.', '.']);
            return true;
        }
        i += 1;
    }
    false
}

/// The path of the file that a static mapping to `base` serves for `rest`.
pub fn join_static_path(base: &str, rest: &Vec<char>) -> (file: String)
    ensures
        file@ == static_file_path(base@, rest@),
{
    let mut out: Vec<char> = Vec::new();
    push_text(&mut out, base);
    out.push('/');
    let mut i: usize = 0;
    while i < rest.len() && rest[i] == '/'
        invariant
            i <= rest.len(),
            without_leading_slashes(rest@, 0) == without_leading_slashes(rest@, i as int),
        decreases rest.len() - i,
    {
        i += 1;
    }
    push_range(&mut out, rest, i, rest.len());
    string_of(&out)
}

} // verus!
