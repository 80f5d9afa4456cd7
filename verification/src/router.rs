//! The router: which handler answers a path and a verb.
//!
//! Handlers are registered under a path and a verb. A request is answered by
//! the handlers of its own path or, failing that, of the longest registered
//! path that is reached by cutting trailing segments off it.

use vstd::prelude::*;
use crate::status::Status;
use crate::table::Table;

verus! {

/// What a router holds: for each path, the handler of each verb.
pub type Routes<H> = Map<Seq<char>, Map<Seq<char>, H>>;

/// The position of the last `/` in `path`, or -1 if it has none.
pub open spec fn last_slash(path: Seq<char>) -> int
    decreases path.len(),
{
    if path.len() == 0 {
        -1
    } else if path.last() == '/' {
        path.len() - 1
    } else {
        last_slash(path.drop_last())
    }
}

/// The path that is tried after `path`: `path` without its last segment. The
/// `/` before the segment goes with it, unless nothing would be left: what
/// comes after `/a` is `/`, and what comes after `/` is the empty path, at
/// which the walk ends.
pub open spec fn parent(path: Seq<char>) -> Seq<char> {
    let i = last_slash(path);
    if i > 0 {
        path.take(i)
    } else if i == 0 && path.len() > 1 {
        path.take(1)
    } else {
        Seq::empty()
    }
}

/// The handlers registered under `path`; none for a path that was never
/// registered.
pub open spec fn verbs_of<H>(routes: Routes<H>, path: Seq<char>) -> Map<Seq<char>, H> {
    if routes.dom().contains(path) {
        routes[path]
    } else {
        Map::empty()
    }
}

/// The routes with `handler` registered under `path` and `verb`, in place of
/// what was registered there before.
pub open spec fn with_route<H>(
    routes: Routes<H>,
    path: Seq<char>,
    verb: Seq<char>,
    handler: H,
) -> Routes<H> {
    routes.insert(path, verbs_of(routes, path).insert(verb, handler))
}

/// The answer at a registered path: the handler of the verb, or 405 where
/// the path has none for it.
pub open spec fn answer_at<H>(routes: Routes<H>, path: Seq<char>, verb: Seq<char>) -> Result<
    H,
    u16,
> {
    if routes[path].dom().contains(verb) {
        Ok(routes[path][verb])
    } else {
        Err(405)
    }
}

/// The answer of the router: the walk from `path` through its parents stops
/// at the first path that is registered, and there the verb decides. A walk
/// that reaches the empty path has found nothing: 404.
pub open spec fn resolve<H>(routes: Routes<H>, path: Seq<char>, verb: Seq<char>) -> Result<H, u16>
    decreases path.len(),
{
    if path.len() == 0 {
        Err(404)
    } else if routes.dom().contains(path) {
        answer_at(routes, path, verb)
    } else if parent(path).len() < path.len() {
        resolve(routes, parent(path), verb)
    } else {
        Err(404)
    }
}

/// The paths that the walk from `path` tries, in order: `path`, its parent,
/// and so on up to the last that is not empty.
pub open spec fn walk(path: Seq<char>) -> Seq<Seq<char>>
    decreases path.len(),
{
    if path.len() == 0 {
        Seq::empty()
    } else if parent(path).len() < path.len() {
        seq![path] + walk(parent(path))
    } else {
        seq![path]
    }
}

/// The last `/` is a `/`, and no `/` comes after it.
pub proof fn lemma_last_slash(path: Seq<char>)
    ensures
        -1 <= last_slash(path) < path.len(),
        last_slash(path) >= 0 ==> path[last_slash(path)] == '/',
        forall|j: int| last_slash(path) < j < path.len() ==> path[j] != '/',
    decreases path.len(),
{
    if path.len() > 0 && path.last() != '/' {
        let front = path.drop_last();
        lemma_last_slash(front);
        assert forall|j: int| last_slash(path) < j < path.len() implies path[j] != '/' by {
            if j < front.len() {
                assert(front[j] == path[j]);
            }
        }
    }
}

/// A position that holds a `/` with none after it is the last `/`.
pub proof fn lemma_last_slash_is(path: Seq<char>, i: int)
    requires
        -1 <= i < path.len(),
        i >= 0 ==> path[i] == '/',
        forall|j: int| i < j < path.len() ==> path[j] != '/',
    ensures
        last_slash(path) == i,
{
    lemma_last_slash(path);
}

/// The parent of a path is shorter than the path, and the parent of a path
/// that begins with `/` is empty or begins with `/` too.
pub proof fn lemma_parent(path: Seq<char>)
    requires
        path.len() > 0,
    ensures
        parent(path).len() < path.len(),
        path[0] == '/' && parent(path).len() > 0 ==> parent(path)[0] == '/',
{
    lemma_last_slash(path);
}

/// Every path on a walk is shorter than the paths before it.
pub proof fn lemma_walk_shortens(path: Seq<char>, i: int, j: int)
    requires
        0 <= i < j < walk(path).len(),
    ensures
        walk(path)[j].len() < walk(path)[i].len(),
    decreases path.len(),
{
    lemma_parent(path);
    let rest = walk(parent(path));
    assert(walk(path) =~= seq![path] + rest);
    assert(walk(path)[j] == rest[j - 1]);
    if i == 0 {
        if j > 1 {
            lemma_walk_shortens(parent(path), 0, j - 1);
        }
        assert(rest[0] == parent(path));
    } else {
        assert(walk(path)[i] == rest[i - 1]);
        lemma_walk_shortens(parent(path), i - 1, j - 1);
    }
}

/// The longest registered path answers: where a path on the walk is
/// registered and none before it is, the answer is the one at that path,
/// and every path after it on the walk is shorter. So 405 is given only
/// where a path matched and its verb did not.
pub proof fn lemma_longest_registered_path_answers<H>(
    routes: Routes<H>,
    path: Seq<char>,
    verb: Seq<char>,
    i: int,
)
    requires
        0 <= i < walk(path).len(),
        routes.dom().contains(walk(path)[i]),
        forall|j: int| 0 <= j < i ==> !routes.dom().contains(#[trigger] walk(path)[j]),
    ensures
        resolve(routes, path, verb) == answer_at(routes, walk(path)[i], verb),
        forall|j: int| i < j < walk(path).len() ==> (#[trigger] walk(path)[j]).len() < walk(
            path,
        )[i].len(),
    decreases path.len(),
{
    lemma_parent(path);
    assert forall|j: int| i < j < walk(path).len() implies (#[trigger] walk(path)[j]).len()
        < walk(path)[i].len() by {
        lemma_walk_shortens(path, i, j);
    }
    if i > 0 {
        let rest = walk(parent(path));
        assert(walk(path) =~= seq![path] + rest);
        assert(walk(path)[0] == path);
        assert forall|j: int| 0 <= j < i - 1 implies !routes.dom().contains(
            #[trigger] rest[j],
        ) by {
            assert(walk(path)[j + 1] == rest[j]);
        }
        assert(walk(path)[i] == rest[i - 1]);
        lemma_longest_registered_path_answers(routes, parent(path), verb, i - 1);
    }
}

/// Where no path on the walk is registered, the answer is 404.
pub proof fn lemma_nothing_registered_is_not_found<H>(
    routes: Routes<H>,
    path: Seq<char>,
    verb: Seq<char>,
)
    requires
        forall|j: int|
            0 <= j < walk(path).len() ==> !routes.dom().contains(#[trigger] walk(path)[j]),
    ensures
        resolve(routes, path, verb) == Err::<H, u16>(404),
    decreases path.len(),
{
    if path.len() > 0 {
        lemma_parent(path);
        let rest = walk(parent(path));
        assert(walk(path) =~= seq![path] + rest);
        assert(walk(path)[0] == path);
        assert forall|j: int| 0 <= j < rest.len() implies !routes.dom().contains(
            #[trigger] rest[j],
        ) by {
            assert(walk(path)[j + 1] == rest[j]);
        }
        lemma_nothing_registered_is_not_found(routes, parent(path), verb);
    }
}

/// A handler answers the path and the verb under which it was registered.
pub proof fn lemma_registered_route_answers<H>(
    routes: Routes<H>,
    path: Seq<char>,
    verb: Seq<char>,
    handler: H,
)
    requires
        path.len() > 0,
    ensures
        resolve(with_route(routes, path, verb, handler), path, verb) == Ok::<H, u16>(handler),
{
}

/// The routes of a server, with handlers of type `H`. Its view gives, for
/// each registered path, the handler of each verb.
pub struct Router<H> {
    routes: Table<Table<H>>,
}

impl<H> View for Router<H> {
    type V = Routes<H>;

    closed spec fn view(&self) -> Routes<H> {
        Map::new(
            |path: Seq<char>| self.routes@.dom().contains(path),
            |path: Seq<char>| self.routes@[path]@,
        )
    }
}

impl<H> Router<H> {
    /// No path and no verb occurs twice.
    pub closed spec fn wf(&self) -> bool {
        &&& self.routes.wf()
        &&& forall|i: int|
            0 <= i < self.routes.values().len() ==> (#[trigger] self.routes.values()[i]).wf()
    }

    /// A router with no routes.
    pub fn new() -> (r: Router<H>)
        ensures
            r.wf(),
            r@ == Routes::<H>::empty(),
    {
        let r = Router { routes: Table::new() };
        assert(r@ =~= Routes::<H>::empty());
        r
    }

    /// Registers `handler` for `verb` under `path`.
    pub fn add_route(&mut self, path: &str, verb: &str, handler: H)
        requires
            old(self).wf(),
        ensures
            final(self).wf(),
            final(self)@ == with_route(old(self)@, path@, verb@, handler),
    {
        let path = path.to_owned();
        let verb = verb.to_owned();
        proof {
            self.routes.lemma_view();
        }
        let at = match self.routes.position(path.as_str()) {
            Some(at) => at,
            None => {
                let at = self.routes.push(path, Table::new());
                proof {
                    self.routes.lemma_view();
                }
                at
            },
        };
        let verbs = self.routes.value_mut(at);
        verbs.insert(verb, handler);
        proof {
            self.routes.lemma_view();
            assert(self@ =~~= with_route(old(self)@, path@, verb@, handler));
        }
    }

    /// The handler for `verb` at `path`, or the status that says why there
    /// is none: 405 where the path, or the nearest registered path above it,
    /// has no handler for the verb, 404 where no path on the way is
    /// registered.
    pub fn get_handler(&self, path: &String, verb: &String) -> (r: Result<&H, Status>)
        requires
            self.wf(),
            path@.len() > 0,
            path@[0] == '/',
            verb@.len() > 0,
        ensures
            match r {
                Ok(handler) => resolve(self@, path@, verb@) == Ok::<H, u16>(*handler),
                Err(status) => resolve(self@, path@, verb@) == Err::<H, u16>(status@)
                    && status.wf(),
            },
    {
        let chars = crate::text::to_chars(path.as_str());
        let mut end = chars.len();
        proof {
            assert(path@.take(end as int) =~= path@);
            self.routes.lemma_view();
        }
        while end > 0
            invariant
                self.wf(),
                chars@ == path@,
                end <= chars@.len(),
                end > 0 ==> chars@[0] == '/',
                resolve(self@, path@, verb@) == resolve(self@, path@.take(end as int), verb@),
            decreases end,
        {
            let ghost current = path@.take(end as int);
            let key = crate::text::slice_text(path.as_str(), 0, end);
            proof {
                self.routes.lemma_view();
                assert(key@ =~= current);
            }
            match self.routes.position(key.as_str()) {
                Some(at) => {
                    proof {
                        assert(self.routes.values()[at as int].wf());
                    }
                    return match self.routes.value(at).get(verb.as_str()) {
                        Some(handler) => Ok(handler),
                        None => Err(Status::method_not_allowed()),
                    };
                },
                None => {},
            }
            let mut cut = end;
            while cut > 0 && chars[cut - 1] != '/'
                invariant
                    cut <= end <= chars@.len(),
                    forall|j: int| cut <= j < end ==> chars@[j] != '/',
                decreases cut,
            {
                cut = cut - 1;
            }
            proof {
                lemma_last_slash_is(current, cut - 1);
                lemma_parent(current);
            }
            let next = if cut > 1 {
                cut - 1
            } else if cut == 1 && end > 1 {
                1
            } else {
                0
            };
            proof {
                assert(parent(current) =~= path@.take(next as int));
            }
            end = next;
        }
        proof {
            assert(path@.take(0).len() == 0);
        }
        Err(Status::not_found())
    }
}

} // verus!
