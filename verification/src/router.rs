//! The topic router: a trie of `/`-separated path segments.
//!
//! Handlers sit at trie nodes; dispatch descends a topic segment by
//! segment, and at every level the handlers under the distinguished `*`
//! child also run. The library routes to handler tokens; the unverified
//! shell maps each token to its callback. A companion subscription set
//! keeps the broker subscriptions free of duplicates.

use vstd::prelude::*;
use vstd::string::{StrSliceExecFns, StringSliceAdditionalSpecFns};

use crate::ascii::{bytes_eq, find_byte, lemma_find_byte, lemma_find_byte_unique};

verus! {

/// A routable handler: a token the shell resolves to a callback.
#[derive(Copy, Clone, PartialEq, Eq, Structural, Debug)]
pub struct Handler {
    pub id: u64,
}

/// A trie node: either a bare handler list, or handlers with children.
pub enum Route {
    Leaf(Vec<Handler>),
    Node(Box<RouteNode>),
}

/// An inner trie node: its own handlers and its children by segment.
pub struct RouteNode {
    pub handlers: Vec<Handler>,
    pub children: Vec<(Vec<u8>, Route)>,
}

/// The handler tokens stored at a trie node itself.
pub open spec fn spec_handlers(r: Route) -> Seq<u64> {
    match r {
        Route::Leaf(hs) => hs@.map_values(|h: Handler| h.id),
        Route::Node(n) => n.handlers@.map_values(|h: Handler| h.id),
    }
}

/// The first child bound to a segment in a child list.
pub open spec fn spec_child(cs: Seq<(Vec<u8>, Route)>, stem: Seq<u8>) -> Option<Route>
    decreases cs.len(),
{
    if cs.len() == 0 {
        None
    } else if cs[0].0@ == stem {
        Some(cs[0].1)
    } else {
        spec_child(cs.drop_first(), stem)
    }
}

/// The child of a route under a segment, if any.
pub open spec fn spec_sub_tree(r: Route, stem: Seq<u8>) -> Option<Route> {
    match r {
        Route::Leaf(_) => None,
        Route::Node(n) => spec_child(n.children@, stem),
    }
}

/// The wildcard segment.
pub open spec fn star_seg() -> Seq<u8> {
    seq!['*' as u8]
}

/// The child segments of a route are pairwise distinct, at every level.
pub open spec fn spec_route_wf(r: Route) -> bool
    decreases r,
{
    match r {
        Route::Leaf(_) => true,
        Route::Node(n) => {
            &&& forall|i: int, j: int|
                0 <= i < j < n.children@.len() ==> (#[trigger] n.children@[i]).0@ != (
                #[trigger] n.children@[j]).0@
            &&& forall|i: int|
                0 <= i < n.children@.len() ==> spec_route_wf((#[trigger] n.children@[i]).1)
        },
    }
}

/// The handler tokens a topic reaches, in execution order: at each level
/// the wildcard child's own handlers run first, then dispatch descends the
/// literal segment; at the end of the topic the node's handlers run.
pub open spec fn spec_dispatch(r: Route, path: Seq<u8>) -> Seq<u64>
    decreases path.len(),
    via spec_dispatch_decreases
{
    if path.len() == 0 {
        spec_handlers(r)
    } else {
        let star: Seq<u64> = match spec_sub_tree(r, star_seg()) {
            Some(c) => spec_handlers(c),
            None => Seq::empty(),
        };
        let d = find_byte(path, '/' as u8);
        let stem = path.subrange(0, d);
        let rest: Seq<u8> = if d == path.len() {
            Seq::empty()
        } else {
            path.subrange(d + 1, path.len() as int)
        };
        star + (match spec_sub_tree(r, stem) {
            Some(c) => spec_dispatch(c, rest),
            None => Seq::empty(),
        })
    }
}

#[via_fn]
proof fn spec_dispatch_decreases(r: Route, path: Seq<u8>) {
    if path.len() > 0 {
        lemma_find_byte(path, '/' as u8);
    }
}

/// Whether a path is free of the wildcard byte.
pub open spec fn no_star(path: Seq<u8>) -> bool {
    forall|i: int| 0 <= i < path.len() ==> path[i] != '*' as u8
}

/// Whether two topics name the same trie node: their segments agree at
/// every level. A lone trailing slash adds an empty final segment that
/// dispatch reads the same way as none, so `a` and `a/` name one node.
pub open spec fn same_segments(a: Seq<u8>, b: Seq<u8>) -> bool
    decreases a.len(),
    via same_segments_decreases
{
    if a.len() == 0 || b.len() == 0 {
        a.len() == b.len()
    } else {
        let da = find_byte(a, '/' as u8);
        let db = find_byte(b, '/' as u8);
        let rest_a: Seq<u8> = if da == a.len() {
            Seq::empty()
        } else {
            a.subrange(da + 1, a.len() as int)
        };
        let rest_b: Seq<u8> = if db == b.len() {
            Seq::empty()
        } else {
            b.subrange(db + 1, b.len() as int)
        };
        a.subrange(0, da) == b.subrange(0, db) && same_segments(rest_a, rest_b)
    }
}

#[via_fn]
proof fn same_segments_decreases(a: Seq<u8>, b: Seq<u8>) {
    if a.len() > 0 && b.len() > 0 {
        lemma_find_byte(a, '/' as u8);
    }
}

/// The handlers under a route's wildcard child, which run for every topic
/// that passes the route with segments remaining.
pub open spec fn spec_star_handlers(r: Route) -> Seq<u64> {
    match spec_sub_tree(r, star_seg()) {
        Some(c) => spec_handlers(c),
        None => Seq::empty(),
    }
}

/// The literal half of one dispatch level: descend the topic's first
/// segment and dispatch the remainder there.
pub open spec fn spec_literal_tail(r: Route, t: Seq<u8>) -> Seq<u64>
    recommends
        t.len() > 0,
{
    let d = find_byte(t, '/' as u8);
    let stem = t.subrange(0, d);
    let rest: Seq<u8> = if d == t.len() {
        Seq::empty()
    } else {
        t.subrange(d + 1, t.len() as int)
    };
    match spec_sub_tree(r, stem) {
        Some(c) => spec_dispatch(c, rest),
        None => Seq::empty(),
    }
}

/// A dispatch of a nonempty topic is the wildcard child's handlers, then
/// the literal descent.
pub proof fn lemma_dispatch_parts(r: Route, t: Seq<u8>)
    requires
        t.len() > 0,
    ensures
        spec_dispatch(r, t) == spec_star_handlers(r) + spec_literal_tail(r, t),
{
    lemma_find_byte(t, '/' as u8);
}

/// A route whose wildcard child gained one handler token, and whose own
/// handlers and other children are untouched, dispatches every wildcard-free
/// topic with segments to the old handlers with the token spliced in at the
/// wildcard's place.
pub proof fn law_star_insert_dispatch(pre: Route, post: Route, id: u64)
    requires
        spec_star_handlers(post) == spec_star_handlers(pre).push(id),
        spec_handlers(post) == spec_handlers(pre),
        forall|q: Seq<u8>| q != star_seg() ==> spec_sub_tree(post, q) == spec_sub_tree(pre, q),
    ensures
        forall|t: Seq<u8>|
            no_star(t) ==> #[trigger] spec_dispatch(post, t) == if t.len() == 0 {
                spec_dispatch(pre, t)
            } else {
                spec_star_handlers(pre).push(id) + spec_literal_tail(pre, t)
            },
{
    assert forall|t: Seq<u8>| no_star(t) implies #[trigger] spec_dispatch(post, t) == if t.len()
        == 0 {
        spec_dispatch(pre, t)
    } else {
        spec_star_handlers(pre).push(id) + spec_literal_tail(pre, t)
    } by {
        if t.len() == 0 {
        } else {
            lemma_dispatch_parts(pre, t);
            lemma_dispatch_parts(post, t);
            lemma_find_byte(t, '/' as u8);
            let d = find_byte(t, '/' as u8);
            let stem = t.subrange(0, d);
            assert(stem != star_seg()) by {
                if stem == star_seg() {
                    assert(stem.len() == 1);
                    assert(d == 1);
                    assert(stem[0] == t[0]);
                    assert(stem[0] == star_seg()[0]);
                    assert(t[0] == '*' as u8);
                }
            }
            assert(spec_sub_tree(post, stem) == spec_sub_tree(pre, stem));
            assert(spec_literal_tail(post, t) == spec_literal_tail(pre, t));
        }
    }
}

/// A route with no handlers and no children dispatches nothing.
proof fn lemma_dispatch_fresh_leaf(hs: Seq<Handler>, path: Seq<u8>)
    requires
        hs.len() == 0,
    ensures
        forall|r: Route|
            (r matches Route::Leaf(v) && v@ == hs) ==> #[trigger] spec_dispatch(r, path).len()
                == 0,
    decreases path.len(),
{
    assert forall|r: Route|
        (r matches Route::Leaf(v) && v@ == hs) implies #[trigger] spec_dispatch(r, path).len()
        == 0 by {
        if path.len() == 0 {
            assert(spec_handlers(r) =~= hs.map_values(|h: Handler| h.id));
        } else {
            lemma_find_byte(path, '/' as u8);
        }
    }
}

/// Collect a node's own handler tokens.
fn execute(route: &Route, out: &mut Vec<u64>)
    ensures
        final(out)@ == old(out)@ + spec_handlers(*route),
{
    let hs: &Vec<Handler> = handlers_of(route);
    let n = hs.len();
    let mut i: usize = 0;
    while i < n
        invariant
            n == hs@.len(),
            0 <= i <= n,
            out@ == old(out)@ + hs@.subrange(0, i as int).map_values(|h: Handler| h.id),
        decreases n - i,
    {
        out.push(hs[i].id);
        proof {
            assert(hs@.subrange(0, i + 1 as int).drop_last() =~= hs@.subrange(0, i as int));
            assert(out@ =~= old(out)@ + hs@.subrange(0, i + 1 as int).map_values(
                |h: Handler| h.id,
            ));
        }
        i = i + 1;
    }
    proof {
        assert(hs@.subrange(0, n as int) =~= hs@);
        match route {
            Route::Leaf(v) => assert(spec_handlers(*route) == v@.map_values(|h: Handler| h.id)),
            Route::Node(nd) => assert(spec_handlers(*route) == nd.handlers@.map_values(
                |h: Handler| h.id,
            )),
        }
    }
}

/// The handlers stored at a route.
fn handlers_of(route: &Route) -> (r: &Vec<Handler>)
    ensures
        r@.map_values(|h: Handler| h.id) == spec_handlers(*route),
{
    match route {
        Route::Leaf(hs) => hs,
        Route::Node(n) => &n.handlers,
    }
}

/// The child of a route under a segment, if any.
#[verifier::loop_isolation(false)]
fn sub_tree<'a>(route: &'a Route, stem: &[u8]) -> (r: Option<&'a Route>)
    ensures
        match r {
            Some(c) => spec_sub_tree(*route, stem@) == Some(*c),
            None => spec_sub_tree(*route, stem@) is None,
        },
{
    match route {
        Route::Leaf(_) => None,
        Route::Node(n) => {
            let cs = &n.children;
            let m = cs.len();
            let mut i: usize = 0;
            proof {
                assert(cs@.subrange(0, m as int) =~= cs@);
            }
            while i < m
                invariant
                    m == cs@.len(),
                    0 <= i <= m,
                    spec_child(cs@, stem@) == spec_child(cs@.subrange(i as int, m as int), stem@),
                decreases m - i,
            {
                if bytes_eq(cs[i].0.as_slice(), stem) {
                    proof {
                        let sub = cs@.subrange(i as int, m as int);
                        assert(sub[0] == cs@[i as int]);
                        assert(sub[0].0@ == stem@);
                        assert(spec_child(sub, stem@) == Some(sub[0].1));
                        assert(cs@ == (*route)->Node_0.children@);
                        assert(spec_sub_tree(*route, stem@) == spec_child(cs@, stem@));
                    }
                    return Some(&cs[i].1);
                }
                proof {
                    assert(cs@.subrange(i as int, m as int)[0] == cs@[i as int]);
                    assert(cs@.subrange(i as int, m as int).drop_first() =~= cs@.subrange(
                        i + 1 as int,
                        m as int,
                    ));
                }
                i = i + 1;
            }
            proof {
                assert(cs@.subrange(m as int, m as int) =~= Seq::<(Vec<u8>, Route)>::empty());
                assert(cs@ == (*route)->Node_0.children@);
                assert(spec_sub_tree(*route, stem@) == spec_child(cs@, stem@));
            }
            None
        },
    }
}

/// Collect every handler a topic reaches under a route, in order.
fn dispatch(route: &Route, path: &[u8], out: &mut Vec<u64>)
    ensures
        final(out)@ == old(out)@ + spec_dispatch(*route, path@),
    decreases path@.len(),
{
    if path.len() == 0 {
        execute(route, out);
        return;
    }
    match sub_tree(route, star_vec().as_slice()) {
        Some(c) => {
            execute(c, out);
        },
        None => {},
    }
    let n = path.len();
    let mut d: usize = 0;
    while d < n && path[d] != '/' as u8
        invariant
            n == path@.len(),
            0 <= d <= n,
            forall|j: int| 0 <= j < d ==> path@[j] != '/' as u8,
        decreases n - d,
    {
        d = d + 1;
    }
    proof {
        lemma_find_byte_unique(path@, '/' as u8, d as int);
    }
    let stem = &path[0..d];
    let rest: &[u8] = if d == n {
        &path[0..0]
    } else {
        &path[d + 1..n]
    };
    proof {
        if d == n {
            assert(rest@ =~= Seq::<u8>::empty());
        }
    }
    match sub_tree(route, stem) {
        Some(c) => {
            dispatch(c, rest, out);
        },
        None => {},
    }
}

/// The wildcard segment as a vector.
fn star_vec() -> (r: Vec<u8>)
    ensures
        r@ == star_seg(),
{
    let mut v: Vec<u8> = Vec::new();
    v.push('*' as u8);
    proof {
        assert(v@ =~= star_seg());
    }
    v
}

/// Turn a leaf into an empty inner node; an inner node stays as it is.
fn make_node(route: &mut Route)
    ensures
        *final(route) matches Route::Node(n) && spec_handlers(*final(route)) == spec_handlers(
            *old(route),
        ) && (match *old(route) {
            Route::Leaf(_) => n.children@.len() == 0,
            Route::Node(_) => *final(route) == *old(route),
        }),
        spec_route_wf(*old(route)) ==> spec_route_wf(*final(route)),
{
    match route {
        Route::Leaf(hs) => {
            let mut handlers: Vec<Handler> = Vec::new();
            core::mem::swap(&mut handlers, hs);
            *route = Route::Node(Box::new(RouteNode { handlers, children: Vec::new() }));
        },
        Route::Node(_) => {},
    }
}

/// Looking a segment up after replacing the route at its entry finds the
/// replacement; other segments are unaffected.
proof fn lemma_spec_child_update(cs: Seq<(Vec<u8>, Route)>, i: int, v: Route, q: Seq<u8>)
    requires
        0 <= i < cs.len(),
        forall|a: int, b: int|
            0 <= a < b < cs.len() ==> (#[trigger] cs[a]).0@ != (#[trigger] cs[b]).0@,
    ensures
        spec_child(cs.update(i, (cs[i].0, v)), q) == if q == cs[i].0@ {
            Some(v)
        } else {
            spec_child(cs, q)
        },
    decreases cs.len(),
{
    let up = cs.update(i, (cs[i].0, v));
    if i == 0 {
        assert(up[0] == (cs[0].0, v));
        if q != cs[0].0@ {
            assert(up.drop_first() =~= cs.drop_first());
        }
    } else {
        assert(up[0] == cs[0]);
        assert(up.drop_first() =~= cs.drop_first().update(i - 1, (cs.drop_first()[i - 1].0, v)));
        assert(cs.drop_first()[i - 1] == cs[i]);
        lemma_spec_child_update(cs.drop_first(), i - 1, v, q);
        if q == cs[i].0@ {
            assert(cs[0].0@ != cs[i].0@);
        }
    }
}

/// Looking a segment up after appending a new entry finds the new entry
/// only under its own segment.
proof fn lemma_spec_child_push(cs: Seq<(Vec<u8>, Route)>, e: (Vec<u8>, Route), q: Seq<u8>)
    requires
        forall|a: int| 0 <= a < cs.len() ==> (#[trigger] cs[a]).0@ != e.0@,
    ensures
        spec_child(cs.push(e), q) == if q == e.0@ {
            Some(e.1)
        } else {
            spec_child(cs, q)
        },
    decreases cs.len(),
{
    let up = cs.push(e);
    if cs.len() == 0 {
        assert(up[0] == e);
        if q == e.0@ {
            assert(up[0].0@ == q);
            assert(spec_child(up, q) == Some(e.1));
        } else {
            assert(up.drop_first() =~= Seq::<(Vec<u8>, Route)>::empty());
            assert(spec_child(up, q) == spec_child(up.drop_first(), q));
            assert(spec_child(up, q) is None);
        }
    } else {
        assert(up[0] == cs[0]);
        assert(cs[0].0@ != e.0@);
        assert(up.drop_first() =~= cs.drop_first().push(e));
        assert forall|j: int|
            0 <= j < cs.drop_first().len() implies (#[trigger] cs.drop_first()[j]).0@ != e.0@ by {
            assert(cs.drop_first()[j] == cs[j + 1]);
        }
        lemma_spec_child_push(cs.drop_first(), e, q);
        if q == e.0@ {
            assert(up[0].0@ != q);
            assert(spec_child(up, q) == spec_child(up.drop_first(), q));
        } else {
            if q == cs[0].0@ {
                assert(spec_child(up, q) == Some(up[0].1));
                assert(spec_child(cs, q) == Some(cs[0].1));
            } else {
                assert(spec_child(up, q) == spec_child(up.drop_first(), q));
                assert(spec_child(cs, q) == spec_child(cs.drop_first(), q));
            }
        }
    }
}

/// Register a handler under a path in the trie: dispatching the same
/// path afterwards runs the old handlers then the new one, and every
/// topic naming another node dispatches as before.
#[verifier::rlimit(100)]
fn insert(route: &mut Route, path: &[u8], handler: Handler)
    requires
        spec_route_wf(*old(route)),
    ensures
        spec_route_wf(*final(route)),
        no_star(path@) ==> spec_dispatch(*final(route), path@) == spec_dispatch(
            *old(route),
            path@,
        ).push(handler.id),
        no_star(path@) ==> forall|t: Seq<u8>|
            no_star(t) && !same_segments(t, path@) ==> spec_dispatch(*final(route), t)
                == spec_dispatch(*old(route), t),
        path@ == star_seg() ==> {
            &&& spec_star_handlers(*final(route)) == spec_star_handlers(*old(route)).push(
                handler.id,
            )
            &&& spec_handlers(*final(route)) == spec_handlers(*old(route))
            &&& forall|q: Seq<u8>|
                q != star_seg() ==> spec_sub_tree(*final(route), q) == spec_sub_tree(
                    *old(route),
                    q,
                )
        },
    decreases path@.len(),
{
    if path.len() == 0 {
        match route {
            Route::Leaf(hs) => {
                hs.push(handler);
            },
            Route::Node(n) => {
                n.handlers.push(handler);
            },
        }
        proof {
            assert(spec_handlers(*route) =~= spec_handlers(*old(route)).push(handler.id));
            assert forall|t: Seq<u8>|
                no_star(t) && !same_segments(t, path@) implies spec_dispatch(*route, t)
                == spec_dispatch(*old(route), t) by {
                assert(t.len() > 0);
                lemma_find_byte(t, '/' as u8);
                let dt = find_byte(t, '/' as u8);
                let stem_t = t.subrange(0, dt);
                match (*route, *old(route)) {
                    (Route::Leaf(_), Route::Leaf(_)) => {
                        assert(spec_sub_tree(*route, star_seg()) is None);
                        assert(spec_sub_tree(*route, stem_t) is None);
                        assert(spec_dispatch(*route, t) =~= spec_dispatch(*old(route), t));
                    },
                    (Route::Node(n1), Route::Node(n0)) => {
                        assert(n1.children@ == n0.children@);
                        assert(spec_dispatch(*route, t) =~= spec_dispatch(*old(route), t));
                    },
                    _ => {
                        assert(false);
                    },
                }
            }
        }
        return;
    }
    make_node(route);
    let ghost mid = *route;
    let n = path.len();
    let mut d: usize = 0;
    while d < n && path[d] != '/' as u8
        invariant
            n == path@.len(),
            0 <= d <= n,
            forall|j: int| 0 <= j < d ==> path@[j] != '/' as u8,
        decreases n - d,
    {
        d = d + 1;
    }
    proof {
        lemma_find_byte_unique(path@, '/' as u8, d as int);
    }
    let stem = &path[0..d];
    let rest: &[u8] = if d == n {
        &path[0..0]
    } else {
        &path[d + 1..n]
    };
    proof {
        if d == n {
            assert(rest@ =~= Seq::<u8>::empty());
        }
        if no_star(path@) {
            assert(no_star(stem@)) by {
                assert forall|j: int| 0 <= j < stem@.len() implies stem@[j] != '*' as u8 by {
                    assert(stem@[j] == path@[j]);
                }
            }
            assert(no_star(rest@)) by {
                assert forall|j: int| 0 <= j < rest@.len() implies rest@[j] != '*' as u8 by {
                    assert(rest@[j] == path@[d + 1 + j]);
                }
            }
            assert(stem@ != star_seg()) by {
                if stem@ == star_seg() {
                    assert(stem@.len() == 1);
                    assert(d == 1);
                    assert(stem@[0] == path@[0]);
                    assert(stem@[0] == star_seg()[0]);
                    assert(path@[0] == '*' as u8);
                }
            }
        }
    }
    match route {
        Route::Node(nd) => {
            let ghost cs0 = nd.children@;
            let cs_len = nd.children.len();
            let mut i: usize = 0;
            let mut found: Option<usize> = None;
            while i < cs_len && found.is_none()
                invariant
                    cs_len == nd.children@.len(),
                    nd.children@ == cs0,
                    0 <= i <= cs_len,
                    match found {
                        Some(f) => f < cs_len && cs0[f as int].0@ == stem@ && i == f + 1,
                        None => forall|j: int| 0 <= j < i ==> (#[trigger] cs0[j]).0@ != stem@,
                    },
                decreases cs_len - i,
            {
                if bytes_eq(nd.children[i].0.as_slice(), stem) {
                    found = Some(i);
                }
                i = i + 1;
            }
            match found {
                Some(f) => {
                    proof {
                        // A leaf turned node has no children, so the route
                        // was already this node.
                        assert(mid == *old(route));
                    }
                    let (ck, mut cr) = nd.children.remove(f);
                    let ghost c_old = cs0[f as int].1;
                    insert(&mut cr, rest, handler);
                    let ghost c_new = cr;
                    nd.children.insert(f, (ck, cr));
                    proof {
                        assert(nd.children@ =~= cs0.update(f as int, (cs0[f as int].0, c_new)));
                        lemma_insert_post_update(
                            *old(route),
                            *route,
                            cs0,
                            f as int,
                            c_old,
                            c_new,
                            path@,
                            stem@,
                            rest@,
                            d as int,
                            handler.id,
                        );
                        if path@ == star_seg() {
                            assert(stem@ =~= path@);
                            assert(rest@ =~= Seq::<u8>::empty());
                            assert(no_star(rest@));
                            assert(spec_dispatch(c_new, Seq::<u8>::empty()) == spec_dispatch(
                                c_old,
                                Seq::<u8>::empty(),
                            ).push(handler.id));
                            assert(spec_dispatch(c_new, Seq::<u8>::empty()) == spec_handlers(
                                c_new,
                            ));
                            assert(spec_dispatch(c_old, Seq::<u8>::empty()) == spec_handlers(
                                c_old,
                            ));
                            assert forall|q: Seq<u8>| q != star_seg() implies spec_sub_tree(
                                *route,
                                q,
                            ) == spec_sub_tree(*old(route), q) by {
                                lemma_spec_child_update(cs0, f as int, c_new, q);
                            }
                            lemma_spec_child_update(cs0, f as int, c_new, star_seg());
                            lemma_spec_child_at(cs0, f as int);
                            assert(spec_sub_tree(*route, star_seg()) == Some(c_new));
                            assert(spec_sub_tree(*old(route), star_seg()) == Some(c_old));
                            assert(spec_star_handlers(*route) == spec_star_handlers(
                                *old(route),
                            ).push(handler.id));
                            assert(spec_handlers(*route) == spec_handlers(*old(route)));
                        }
                    }
                },
                None => {
                    let mut cr = Route::Leaf(Vec::new());
                    let ghost fresh = cr;
                    insert(&mut cr, rest, handler);
                    let ghost c_new = cr;
                    let key = vstd::slice::slice_to_vec(stem);
                    nd.children.push((key, cr));
                    proof {
                        assert(nd.children@.len() == cs0.len() + 1);
                        assert(nd.children@ =~= cs0.push(nd.children@[cs0.len() as int]));
                        assert(nd.children@[cs0.len() as int].0@ == stem@);
                        assert(nd.children@[cs0.len() as int].1 == c_new);
                        lemma_dispatch_fresh_leaf(Seq::empty(), rest@);
                        assert(spec_dispatch(fresh, rest@) =~= Seq::<u64>::empty());
                        if no_star(path@) {
                            assert forall|u: Seq<u8>|
                                no_star(u) && !same_segments(u, rest@) implies spec_dispatch(
                                c_new,
                                u,
                            ) == Seq::<u64>::empty() by {
                                lemma_dispatch_fresh_leaf(Seq::empty(), u);
                                assert(spec_dispatch(fresh, u).len() == 0);
                                assert(spec_dispatch(fresh, u) =~= Seq::<u64>::empty());
                                assert(spec_dispatch(c_new, u) == spec_dispatch(fresh, u));
                            }
                        }
                        lemma_insert_post_push(
                            *old(route),
                            mid,
                            *route,
                            cs0,
                            c_new,
                            nd.children@[cs0.len() as int].0,
                            path@,
                            stem@,
                            rest@,
                            d as int,
                            handler.id,
                        );
                        if path@ == star_seg() {
                            assert(stem@ =~= path@);
                            assert(rest@ =~= Seq::<u8>::empty());
                            assert(no_star(rest@));
                            assert(spec_dispatch(c_new, Seq::<u8>::empty()) == spec_dispatch(
                                fresh,
                                Seq::<u8>::empty(),
                            ).push(handler.id));
                            assert(spec_dispatch(fresh, Seq::<u8>::empty()) == spec_handlers(
                                fresh,
                            ));
                            assert(spec_handlers(fresh) =~= Seq::<u64>::empty());
                            assert(spec_handlers(c_new) =~= Seq::<u64>::empty().push(handler.id));
                            let e = (nd.children@[cs0.len() as int].0, c_new);
                            assert forall|q: Seq<u8>| q != star_seg() implies spec_sub_tree(
                                *route,
                                q,
                            ) == spec_sub_tree(*old(route), q) by {
                                lemma_spec_child_push(cs0, e, q);
                                match *old(route) {
                                    Route::Leaf(_) => {
                                        lemma_spec_child_absent(cs0, q);
                                    },
                                    Route::Node(_) => {},
                                }
                            }
                            lemma_spec_child_push(cs0, e, star_seg());
                            lemma_spec_child_absent(cs0, star_seg());
                            assert(spec_sub_tree(*route, star_seg()) == Some(c_new));
                            assert(spec_star_handlers(*route) =~= spec_star_handlers(
                                *old(route),
                            ).push(handler.id)) by {
                                match *old(route) {
                                    Route::Leaf(_) => {},
                                    Route::Node(_) => {},
                                }
                            }
                            assert(spec_handlers(*route) == spec_handlers(*old(route)));
                        }
                    }
                },
            }
        },
        Route::Leaf(_) => {
            proof {
                assert(false);
            }
        },
    }
}

/// After replacing the child under `stem` at index `f`, the route
/// dispatches the path to the old handlers plus the new one, dispatches
/// every other node's topics as before, and stays well formed.
#[verifier::rlimit(100)]
proof fn lemma_insert_post_update(
    pre: Route,
    post: Route,
    cs0: Seq<(Vec<u8>, Route)>,
    f: int,
    c_old: Route,
    c_new: Route,
    path: Seq<u8>,
    stem: Seq<u8>,
    rest: Seq<u8>,
    d: int,
    id: u64,
)
    requires
        spec_route_wf(pre),
        pre matches Route::Node(n0) && n0.children@ == cs0,
        post matches Route::Node(n1) && n1.children@ == cs0.update(f, (cs0[f].0, c_new)),
        spec_handlers(post) == spec_handlers(pre),
        0 <= f < cs0.len(),
        cs0[f].0@ == stem,
        path.len() > 0,
        d == find_byte(path, '/' as u8),
        stem == path.subrange(0, d),
        rest == if d == path.len() {
            Seq::<u8>::empty()
        } else {
            path.subrange(d + 1, path.len() as int)
        },
        c_old == cs0[f].1,
        spec_route_wf(c_new),
        no_star(path) ==> spec_dispatch(c_new, rest) == spec_dispatch(c_old, rest).push(id),
        no_star(path) ==> forall|u: Seq<u8>|
            no_star(u) && !same_segments(u, rest) ==> spec_dispatch(c_new, u) == spec_dispatch(
                c_old,
                u,
            ),
    ensures
        spec_route_wf(post),
        no_star(path) ==> spec_dispatch(post, path) == spec_dispatch(pre, path).push(id),
        no_star(path) ==> forall|t: Seq<u8>|
            no_star(t) && !same_segments(t, path) ==> spec_dispatch(post, t) == spec_dispatch(
                pre,
                t,
            ),
{
    lemma_find_byte(path, '/' as u8);
    let cs1 = cs0.update(f, (cs0[f].0, c_new));
    assert(spec_route_wf(post)) by {
        assert forall|a: int, b: int|
            0 <= a < b < cs1.len() implies (#[trigger] cs1[a]).0@ != (#[trigger] cs1[b]).0@ by {
            assert(cs1[a].0 == cs0[a].0);
            assert(cs1[b].0 == cs0[b].0);
        }
        assert forall|a: int| 0 <= a < cs1.len() implies spec_route_wf((#[trigger] cs1[a]).1) by {
            if a != f {
                assert(cs1[a] == cs0[a]);
            }
        }
    }
    if no_star(path) {
        assert(stem != star_seg()) by {
            if stem == star_seg() {
                assert(stem.len() == 1);
                assert(d == 1);
                assert(stem[0] == path[0]);
                assert(stem[0] == star_seg()[0]);
                assert(path[0] == '*' as u8);
            }
        }
        lemma_spec_child_update(cs0, f, c_new, star_seg());
        lemma_spec_child_update(cs0, f, c_new, stem);
        assert(spec_sub_tree(post, star_seg()) == spec_sub_tree(pre, star_seg()));
        assert(spec_sub_tree(post, stem) == Some(c_new));
        assert(spec_sub_tree(pre, stem) == spec_child(cs0, stem));
        assert(spec_child(cs0, stem) == Some(c_old)) by {
            lemma_spec_child_at(cs0, f);
        }
        let star: Seq<u64> = match spec_sub_tree(pre, star_seg()) {
            Some(c) => spec_handlers(c),
            None => Seq::empty(),
        };
        assert(spec_dispatch(pre, path) == star + spec_dispatch(c_old, rest));
        assert(spec_dispatch(post, path) == star + spec_dispatch(c_old, rest).push(id));
        assert(star + spec_dispatch(c_old, rest).push(id) =~= (star + spec_dispatch(
            c_old,
            rest,
        )).push(id));
        assert forall|t: Seq<u8>|
            no_star(t) && !same_segments(t, path) implies spec_dispatch(post, t) == spec_dispatch(
            pre,
            t,
        ) by {
            if t.len() == 0 {
                assert(spec_dispatch(post, t) == spec_handlers(post));
                assert(spec_dispatch(pre, t) == spec_handlers(pre));
            } else {
                lemma_find_byte(t, '/' as u8);
                let dt = find_byte(t, '/' as u8);
                let stem_t = t.subrange(0, dt);
                let rest_t: Seq<u8> = if dt == t.len() {
                    Seq::empty()
                } else {
                    t.subrange(dt + 1, t.len() as int)
                };
                assert(stem_t != star_seg()) by {
                    if stem_t == star_seg() {
                        assert(stem_t.len() == 1);
                        assert(dt == 1);
                        assert(stem_t[0] == t[0]);
                        assert(stem_t[0] == star_seg()[0]);
                        assert(t[0] == '*' as u8);
                    }
                }
                lemma_spec_child_update(cs0, f, c_new, stem_t);
                if stem_t == stem {
                    assert(!same_segments(rest_t, rest));
                    assert(no_star(rest_t)) by {
                        assert forall|j: int|
                            0 <= j < rest_t.len() implies rest_t[j] != '*' as u8 by {
                            assert(rest_t[j] == t[dt + 1 + j]);
                        }
                    }
                    assert(spec_dispatch(c_new, rest_t) == spec_dispatch(c_old, rest_t));
                    assert(spec_sub_tree(post, stem_t) == Some(c_new));
                    assert(spec_sub_tree(pre, stem_t) == Some(c_old)) by {
                        lemma_spec_child_at(cs0, f);
                    }
                    assert(spec_dispatch(post, t) == star + spec_dispatch(c_new, rest_t));
                    assert(spec_dispatch(pre, t) == star + spec_dispatch(c_old, rest_t));
                } else {
                    assert(spec_sub_tree(post, stem_t) == spec_sub_tree(pre, stem_t));
                    assert(spec_dispatch(post, t) =~= spec_dispatch(pre, t));
                }
            }
        }
    }
}

/// After appending a fresh child under `stem`, the route dispatches the
/// path to the old handlers plus the new one, dispatches every other
/// node's topics as before, and stays well formed.
#[verifier::rlimit(100)]
proof fn lemma_insert_post_push(
    pre: Route,
    mid: Route,
    post: Route,
    cs0: Seq<(Vec<u8>, Route)>,
    c_new: Route,
    key: Vec<u8>,
    path: Seq<u8>,
    stem: Seq<u8>,
    rest: Seq<u8>,
    d: int,
    id: u64,
)
    requires
        spec_route_wf(pre),
        spec_route_wf(mid),
        mid matches Route::Node(n0) && n0.children@ == cs0,
        post matches Route::Node(n1) && n1.children@ == cs0.push((key, c_new)),
        spec_handlers(post) == spec_handlers(pre),
        key@ == stem,
        forall|j: int| 0 <= j < cs0.len() ==> (#[trigger] cs0[j]).0@ != stem,
        (match pre {
            Route::Leaf(_) => cs0.len() == 0,
            Route::Node(np) => np.children@ == cs0,
        }),
        path.len() > 0,
        d == find_byte(path, '/' as u8),
        stem == path.subrange(0, d),
        rest == if d == path.len() {
            Seq::<u8>::empty()
        } else {
            path.subrange(d + 1, path.len() as int)
        },
        spec_route_wf(c_new),
        no_star(path) ==> spec_dispatch(c_new, rest) == Seq::<u64>::empty().push(id),
        no_star(path) ==> forall|u: Seq<u8>|
            no_star(u) && !same_segments(u, rest) ==> spec_dispatch(c_new, u)
                == Seq::<u64>::empty(),
    ensures
        spec_route_wf(post),
        no_star(path) ==> spec_dispatch(post, path) == spec_dispatch(pre, path).push(id),
        no_star(path) ==> forall|t: Seq<u8>|
            no_star(t) && !same_segments(t, path) ==> spec_dispatch(post, t) == spec_dispatch(
                pre,
                t,
            ),
{
    lemma_find_byte(path, '/' as u8);
    let cs1 = cs0.push((key, c_new));
    assert(spec_route_wf(post)) by {
        assert forall|a: int, b: int|
            0 <= a < b < cs1.len() implies (#[trigger] cs1[a]).0@ != (#[trigger] cs1[b]).0@ by {
            if b < cs0.len() {
                assert(cs1[a] == cs0[a]);
                assert(cs1[b] == cs0[b]);
            } else {
                assert(cs1[a] == cs0[a]);
                assert(cs1[b] == (key, c_new));
            }
        }
        assert forall|a: int| 0 <= a < cs1.len() implies spec_route_wf((#[trigger] cs1[a]).1) by {
            if a < cs0.len() {
                assert(cs1[a] == cs0[a]);
            } else {
                assert(cs1[a] == (key, c_new));
            }
        }
    }
    if no_star(path) {
        assert(stem != star_seg()) by {
            if stem == star_seg() {
                assert(stem.len() == 1);
                assert(d == 1);
                assert(stem[0] == path[0]);
                assert(stem[0] == star_seg()[0]);
                assert(path[0] == '*' as u8);
            }
        }
        lemma_spec_child_push(cs0, (key, c_new), star_seg());
        lemma_spec_child_push(cs0, (key, c_new), stem);
        lemma_spec_child_absent(cs0, stem);
        assert(spec_sub_tree(post, star_seg()) == spec_child(cs0, star_seg()));
        assert(spec_sub_tree(post, stem) == Some(c_new));
        let star: Seq<u64> = match spec_child(cs0, star_seg()) {
            Some(c) => spec_handlers(c),
            None => Seq::empty(),
        };
        match pre {
            Route::Leaf(_) => {
                assert(spec_child(cs0, star_seg()) is None) by {
                    lemma_spec_child_absent(cs0, star_seg());
                }
                assert(spec_dispatch(pre, path) =~= Seq::<u64>::empty());
                assert(spec_dispatch(post, path) =~= Seq::<u64>::empty() + spec_dispatch(
                    c_new,
                    rest,
                ));
                assert(spec_dispatch(post, path) =~= spec_dispatch(pre, path).push(id));
            },
            Route::Node(_) => {
                assert(spec_sub_tree(pre, star_seg()) == spec_child(cs0, star_seg()));
                assert(spec_sub_tree(pre, stem) is None);
                assert(spec_dispatch(pre, path) == star + Seq::<u64>::empty());
                assert(spec_dispatch(post, path) == star + spec_dispatch(c_new, rest));
                assert(spec_dispatch(c_new, rest) =~= Seq::<u64>::empty().push(id));
                assert(star + Seq::<u64>::empty().push(id) =~= (star
                    + Seq::<u64>::empty()).push(id));
            },
        }
        assert forall|t: Seq<u8>|
            no_star(t) && !same_segments(t, path) implies spec_dispatch(post, t) == spec_dispatch(
            pre,
            t,
        ) by {
            if t.len() == 0 {
                assert(spec_dispatch(post, t) == spec_handlers(post));
                assert(spec_dispatch(pre, t) == spec_handlers(pre));
            } else {
                lemma_find_byte(t, '/' as u8);
                let dt = find_byte(t, '/' as u8);
                let stem_t = t.subrange(0, dt);
                let rest_t: Seq<u8> = if dt == t.len() {
                    Seq::empty()
                } else {
                    t.subrange(dt + 1, t.len() as int)
                };
                assert(stem_t != star_seg()) by {
                    if stem_t == star_seg() {
                        assert(stem_t.len() == 1);
                        assert(dt == 1);
                        assert(stem_t[0] == t[0]);
                        assert(stem_t[0] == star_seg()[0]);
                        assert(t[0] == '*' as u8);
                    }
                }
                lemma_spec_child_push(cs0, (key, c_new), stem_t);
                let star_t: Seq<u64> = match spec_child(cs0, star_seg()) {
                    Some(c) => spec_handlers(c),
                    None => Seq::empty(),
                };
                match pre {
                    Route::Leaf(_) => {
                        lemma_spec_child_absent(cs0, star_seg());
                        lemma_spec_child_absent(cs0, stem_t);
                    },
                    Route::Node(_) => {},
                }
                if stem_t == stem {
                    assert(!same_segments(rest_t, rest));
                    assert(no_star(rest_t)) by {
                        assert forall|j: int|
                            0 <= j < rest_t.len() implies rest_t[j] != '*' as u8 by {
                            assert(rest_t[j] == t[dt + 1 + j]);
                        }
                    }
                    assert(spec_dispatch(c_new, rest_t) == Seq::<u64>::empty());
                    assert(spec_sub_tree(post, stem_t) == Some(c_new));
                    lemma_spec_child_absent(cs0, stem_t);
                    assert(spec_dispatch(post, t) =~= star_t + spec_dispatch(c_new, rest_t));
                    assert(spec_dispatch(pre, t) =~= star_t);
                    assert(star_t + Seq::<u64>::empty() =~= star_t);
                } else {
                    assert(spec_sub_tree(post, stem_t) == spec_child(cs0, stem_t));
                    assert(spec_dispatch(post, t) =~= spec_dispatch(pre, t));
                }
            }
        }
    }
}

/// A segment held by no entry looks up to nothing.
proof fn lemma_spec_child_absent(cs: Seq<(Vec<u8>, Route)>, q: Seq<u8>)
    requires
        forall|j: int| 0 <= j < cs.len() ==> (#[trigger] cs[j]).0@ != q,
    ensures
        spec_child(cs, q) is None,
    decreases cs.len(),
{
    if cs.len() > 0 {
        assert(cs.drop_first() =~= cs.subrange(1, cs.len() as int));
        assert forall|j: int|
            0 <= j < cs.drop_first().len() implies (#[trigger] cs.drop_first()[j]).0@ != q by {
            assert(cs.drop_first()[j] == cs[j + 1]);
        }
        lemma_spec_child_absent(cs.drop_first(), q);
    }
}

/// The entry holding a segment, unique by well-formedness, is what lookup
/// finds.
proof fn lemma_spec_child_at(cs: Seq<(Vec<u8>, Route)>, f: int)
    requires
        0 <= f < cs.len(),
        forall|a: int, b: int|
            0 <= a < b < cs.len() ==> (#[trigger] cs[a]).0@ != (#[trigger] cs[b]).0@,
    ensures
        spec_child(cs, cs[f].0@) == Some(cs[f].1),
    decreases cs.len(),
{
    if f > 0 {
        assert(cs[0].0@ != cs[f].0@);
        assert(cs.drop_first()[f - 1] == cs[f]);
        lemma_spec_child_at(cs.drop_first(), f - 1);
    }
}

/// The router: a trie rooted at the empty path.
pub struct Router {
    root: Route,
}

impl Router {
    /// The trie this router holds.
    pub closed spec fn spec_root(&self) -> Route {
        self.root
    }

    /// An empty router: every topic dispatches to no handlers.
    pub fn new() -> (r: Router)
        ensures
            spec_route_wf(r.spec_root()),
            forall|path: Seq<u8>| #[trigger] spec_dispatch(r.spec_root(), path).len() == 0,
    {
        let r = Router { root: Route::Leaf(Vec::new()) };
        proof {
            assert forall|path: Seq<u8>| #[trigger]
                spec_dispatch(r.spec_root(), path).len() == 0 by {
                lemma_dispatch_fresh_leaf(Seq::empty(), path);
            }
        }
        r
    }

    /// Register a handler under a topic path. Dispatching the same path
    /// afterwards runs every handler it ran before, then the new one;
    /// every topic naming another trie node dispatches as before. A
    /// registration under the wildcard path runs the new handler at the
    /// wildcard's place for every topic with at least one segment.
    pub fn insert(&mut self, path: &str, handler: Handler)
        requires
            spec_route_wf(old(self).spec_root()),
        ensures
            spec_route_wf(final(self).spec_root()),
            no_star(path.spec_bytes()) ==> spec_dispatch(final(self).spec_root(), path.spec_bytes())
                == spec_dispatch(old(self).spec_root(), path.spec_bytes()).push(handler.id),
            no_star(path.spec_bytes()) ==> forall|t: Seq<u8>|
                no_star(t) && !same_segments(t, path.spec_bytes()) ==> spec_dispatch(
                    final(self).spec_root(),
                    t,
                ) == spec_dispatch(old(self).spec_root(), t),
            path.spec_bytes() == star_seg() ==> forall|t: Seq<u8>|
                no_star(t) ==> #[trigger] spec_dispatch(final(self).spec_root(), t) == if t.len()
                    == 0 {
                    spec_dispatch(old(self).spec_root(), t)
                } else {
                    spec_star_handlers(old(self).spec_root()).push(handler.id) + spec_literal_tail(
                        old(self).spec_root(),
                        t,
                    )
                },
    {
        insert(&mut self.root, path.as_bytes(), handler);
        proof {
            if path.spec_bytes() == star_seg() {
                law_star_insert_dispatch(old(self).root, self.root, handler.id);
            }
        }
    }

    /// Every handler token a topic reaches, in execution order.
    pub fn dispatch(&self, topic: &str) -> (r: Vec<u64>)
        ensures
            r@ == spec_dispatch(self.spec_root(), topic.spec_bytes()),
    {
        let mut out: Vec<u64> = Vec::new();
        dispatch(&self.root, topic.as_bytes(), &mut out);
        out
    }
}

/// Whether a sequence of byte strings holds one equal to `x`.
pub open spec fn spec_has_topic(items: Seq<Seq<u8>>, x: Seq<u8>) -> bool {
    exists|i: int| 0 <= i < items.len() && items[i] == x
}

/// The set of topics after asking to subscribe to one more: unchanged when
/// it is already held.
pub open spec fn spec_subscribe(items: Seq<Seq<u8>>, x: Seq<u8>) -> Seq<Seq<u8>> {
    if spec_has_topic(items, x) {
        items
    } else {
        items.push(x)
    }
}

/// The broker subscriptions the adapter holds: insertion-ordered, free of
/// duplicates, replayed on every reconnect.
pub struct SubscriptionSet {
    topics: Vec<Vec<u8>>,
}

impl SubscriptionSet {
    /// The held topics, in first-subscription order.
    pub closed spec fn view(&self) -> Seq<Seq<u8>> {
        self.topics@.map_values(|v: Vec<u8>| v@)
    }

    /// No subscriptions yet.
    pub fn new() -> (r: SubscriptionSet)
        ensures
            r@ =~= Seq::<Seq<u8>>::empty(),
    {
        SubscriptionSet { topics: Vec::new() }
    }

    /// Whether a topic is already subscribed.
    pub fn contains(&self, x: &[u8]) -> (r: bool)
        ensures
            r == spec_has_topic(self@, x@),
    {
        let n = self.topics.len();
        let mut i: usize = 0;
        while i < n
            invariant
                n == self.topics@.len(),
                0 <= i <= n,
                forall|j: int| 0 <= j < i ==> self@[j] != x@,
            decreases n - i,
        {
            if bytes_eq(self.topics[i].as_slice(), x) {
                assert(self@[i as int] == x@);
                return true;
            }
            i = i + 1;
        }
        false
    }

    /// Ask to subscribe to a topic: the set gains it at most once, and the
    /// call says whether the broker must be told.
    pub fn subscribe(&mut self, topic: Vec<u8>) -> (fresh: bool)
        ensures
            final(self)@ == spec_subscribe(old(self)@, topic@),
            fresh == !spec_has_topic(old(self)@, topic@),
    {
        if self.contains(topic.as_slice()) {
            false
        } else {
            self.topics.push(topic);
            proof {
                assert(self@ =~= old(self)@.push(topic@));
            }
            true
        }
    }

    /// How many topics are held.
    pub fn len(&self) -> (r: usize)
        ensures
            r == self@.len(),
    {
        self.topics.len()
    }

    /// The topic at an index.
    pub fn topic_at(&self, i: usize) -> (r: &Vec<u8>)
        requires
            i < self@.len(),
        ensures
            r@ == self@[i as int],
    {
        &self.topics[i]
    }
}

/// Subscribing any number of times yields exactly one logical
/// subscription: a repeated subscribe leaves the set unchanged.
pub proof fn law_subscribe_idempotent(items: Seq<Seq<u8>>, x: Seq<u8>)
    ensures
        spec_subscribe(spec_subscribe(items, x), x) == spec_subscribe(items, x),
        spec_has_topic(spec_subscribe(items, x), x),
{
    if !spec_has_topic(items, x) {
        assert(items.push(x)[items.len() as int] == x);
    }
}

} // verus!
