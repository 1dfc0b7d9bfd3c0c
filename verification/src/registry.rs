//! The mount registry: the dispatch table built from route groups, guarded
//! against collisions, and the resolution of requests against it.

use crate::error::RouteError;
use crate::model::{
    lemma_views_add, lemma_views_push, mounted_operations, same_key, views, Duplicate, Method,
    OperationDescriptor, OperationSpec, RouteGroup,
};
use crate::path::{
    bind_parameters, bindings, check_prefix, lemma_rank_order, matches_request, more_specific,
    outranks, parameters_view, parse_segments, pattern_matches, rank, segments, valid_prefix,
    PathParameter,
};
use crate::text::{clone_strings, texts};
use vstd::prelude::*;

verus! {

/// No two entries of the table share method and path.
pub open spec fn distinct_keys(table: Seq<OperationSpec>) -> bool {
    forall|i: int, j: int| 0 <= i < j < table.len() ==> !same_key(table[i], table[j])
}

/// Some entry of the table has the method and path of `op`.
pub open spec fn has_key(table: Seq<OperationSpec>, op: OperationSpec) -> bool {
    exists|i: int| 0 <= i < table.len() && same_key(#[trigger] table[i], op)
}

/// The entry answers requests of this method whose segments match its
/// pattern.
pub open spec fn is_candidate(op: OperationSpec, method: Method, request: Seq<Seq<char>>) -> bool {
    op.method == method && pattern_matches(segments(op.path), request)
}

/// Entry `w` is the one a request resolves to: it matches, no matching entry
/// is more specific, and every matching entry registered before it is
/// strictly less specific.
pub open spec fn selected(
    table: Seq<OperationSpec>,
    method: Method,
    request: Seq<Seq<char>>,
    w: int,
) -> bool {
    &&& 0 <= w < table.len()
    &&& is_candidate(table[w], method, request)
    &&& forall|j: int|
        0 <= j < table.len() && is_candidate(#[trigger] table[j], method, request) ==> !outranks(
            segments(table[j].path),
            segments(table[w].path),
        )
    &&& forall|j: int|
        0 <= j < w && is_candidate(#[trigger] table[j], method, request) ==> outranks(
            segments(table[w].path),
            segments(table[j].path),
        )
}

/// One row of the dispatch table: the operation under its qualified path,
/// and that path split into segments once, at registration.
#[derive(Debug, PartialEq, Eq)]
struct MountedRoute {
    operation: OperationDescriptor,
    pattern: Vec<String>,
}

impl MountedRoute {
    /// The row holds the segments of its own path.
    spec fn indexed(&self) -> bool {
        texts(self.pattern@) == segments(self.operation@.path)
    }
}

impl View for MountedRoute {
    type V = OperationSpec;

    closed spec fn view(&self) -> OperationSpec {
        self.operation@
    }
}

/// What a request resolved to.
#[derive(Clone, Debug, PartialEq, Eq)]
pub struct RouteMatch {
    /// Position of the route in the dispatch table.
    pub route: usize,
    /// The handler reference of the operation.
    pub handler: u64,
    /// The path parameters, in path order.
    pub parameters: Vec<PathParameter>,
}

/// The dispatch table, in registration order.
#[derive(Debug, PartialEq, Eq)]
pub struct MountRegistry {
    routes: Vec<MountedRoute>,
}

impl View for MountRegistry {
    type V = Seq<OperationSpec>;

    closed spec fn view(&self) -> Seq<OperationSpec> {
        views(self.routes@)
    }
}

impl MountRegistry {
    /// Every row holds the segments of its own path, and no two rows share
    /// method and path.
    #[verifier::type_invariant]
    spec fn inv(self) -> bool {
        &&& forall|i: int| 0 <= i < self.routes.len() ==> (#[trigger] self.routes[i]).indexed()
        &&& distinct_keys(views(self.routes@))
    }

    /// An empty registry.
    pub fn new() -> (r: Self)
        ensures
            r@ == Seq::<OperationSpec>::empty(),
    {
        let r = MountRegistry { routes: Vec::new() };
        assert(r@ =~= Seq::<OperationSpec>::empty());
        r
    }

    /// Number of mounted operations.
    pub fn len(&self) -> (n: usize)
        ensures
            n == self@.len(),
    {
        self.routes.len()
    }

    /// The mounted operation at a position of the table, its path fully
    /// qualified.
    pub fn operation(&self, route: usize) -> (op: Option<&OperationDescriptor>)
        ensures
            match op {
                Some(o) => route < self@.len() && o@ == self@[route as int],
                None => route >= self@.len(),
            },
    {
        if route < self.routes.len() {
            Some(&self.routes[route].operation)
        } else {
            None
        }
    }

    /// Whether an operation with this method and qualified path is mounted.
    pub fn contains(&self, method: Method, full_path: &str) -> (b: bool)
        ensures
            b == exists|i: int|
                0 <= i < self@.len() && (#[trigger] self@[i]).method == method && self@[i].path
                    == full_path@,
    {
        let wanted = full_path.to_owned();
        holds_key(&self.routes, method, &wanted)
    }

    /// Mounts a group under a prefix. Either every operation of the group is
    /// appended to the table, in declared order and with the prefix applied,
    /// or the table is left as it was. The prefix is the one given here;
    /// [`crate::service::mount`] passes the one the group declares.
    ///
    /// Fails with `InvalidPrefix` where the prefix is not valid, and
    /// otherwise with `Collision` where a method and qualified path would
    /// stand in the table twice.
    pub fn register(&mut self, prefix: &str, group: &RouteGroup) -> (res: Result<(), RouteError>)
        ensures
            distinct_keys(old(self)@),
            distinct_keys(final(self)@),
            match res {
                Ok(_) => {
                    &&& valid_prefix(prefix@)
                    &&& distinct_keys(old(self)@ + mounted_operations(prefix@, group@.operations))
                    &&& final(self)@ == old(self)@ + mounted_operations(
                        prefix@,
                        group@.operations,
                    )
                },
                Err(e) => {
                    &&& final(self)@ == old(self)@
                    &&& e == if !valid_prefix(prefix@) {
                        RouteError::InvalidPrefix
                    } else {
                        RouteError::Collision
                    }
                    &&& valid_prefix(prefix@) ==> !distinct_keys(
                        old(self)@ + mounted_operations(prefix@, group@.operations),
                    )
                },
            },
    {
        proof {
            use_type_invariant(&*self);
        }
        if !check_prefix(prefix) {
            return Err(RouteError::InvalidPrefix);
        }
        let ghost table = self@;
        let ghost incoming = mounted_operations(prefix@, group@.operations);
        let mut fresh: Vec<MountedRoute> = Vec::new();
        let mut i: usize = 0;
        assert(table + views(fresh@) =~= table);
        while i < group.operations.len()
            invariant
                i <= group.operations.len(),
                *self == *old(self),
                valid_prefix(prefix@),
                table == self@,
                distinct_keys(table),
                incoming == mounted_operations(prefix@, group@.operations),
                incoming.len() == group.operations.len(),
                fresh.len() == i,
                views(fresh@) == incoming.take(i as int),
                forall|k: int| 0 <= k < fresh.len() ==> (#[trigger] fresh[k]).indexed(),
                distinct_keys(table + incoming.take(i as int)),
            decreases group.operations.len() - i,
        {
            let op = group.operations[i].qualified(prefix);
            assert(op@ == incoming[i as int]);
            let in_table = holds_key(&self.routes, op.method, &op.path);
            let in_fresh = holds_key(&fresh, op.method, &op.path);
            if in_table || in_fresh {
                proof {
                    let whole = table + incoming;
                    assert(whole[table.len() + i] == incoming[i as int]);
                    if in_table {
                        let k = choose|k: int|
                            0 <= k < views(self.routes@).len() && (#[trigger] views(
                                self.routes@,
                            )[k]).method == op.method && views(self.routes@)[k].path == op.path@;
                        assert(whole[k] == table[k]);
                        assert(same_key(whole[k], whole[table.len() + i]));
                    } else {
                        let k = choose|k: int|
                            0 <= k < views(fresh@).len() && (#[trigger] views(fresh@)[k]).method
                                == op.method && views(fresh@)[k].path == op.path@;
                        assert(views(fresh@)[k] == incoming[k]);
                        assert(whole[table.len() + k] == incoming[k]);
                        assert(same_key(whole[table.len() + k], whole[table.len() + i]));
                    }
                }
                return Err(RouteError::Collision);
            }
            let pattern = parse_segments(op.path.as_str());
            let row = MountedRoute { operation: op, pattern };
            proof {
                lemma_views_push(fresh@, row);
                assert(incoming.take(i + 1) =~= incoming.take(i as int).push(incoming[i as int]));
                let seen = table + incoming.take(i as int);
                let next = table + incoming.take(i + 1);
                assert(next =~= seen.push(incoming[i as int]));
                assert forall|a: int, b: int| 0 <= a < b < next.len() implies !same_key(
                    next[a],
                    next[b],
                ) by {
                    if b < seen.len() {
                        assert(!same_key(seen[a], seen[b]));
                    } else {
                        assert(next[a] == seen[a]);
                    }
                }
            }
            fresh.push(row);
            i += 1;
        }
        let mut rows: Vec<MountedRoute> = Vec::new();
        core::mem::swap(&mut self.routes, &mut rows);
        proof {
            assert(incoming.take(i as int) =~= incoming);
            lemma_views_add(rows@, fresh@);
        }
        rows.append(&mut fresh);
        self.routes = rows;
        Ok(())
    }

    /// Resolves a request to the most specific matching route; among
    /// equally specific ones, to the one registered first.
    pub fn dispatch(&self, method: Method, path: &str) -> (res: Result<RouteMatch, RouteError>)
        ensures
            match res {
                Ok(m) => {
                    &&& selected(self@, method, segments(path@), m.route as int)
                    &&& m.handler == self@[m.route as int].handler
                    &&& parameters_view(m.parameters@) == bindings(
                        segments(self@[m.route as int].path),
                        segments(path@),
                    )
                },
                Err(e) => {
                    &&& e == RouteError::NotFound
                    &&& forall|j: int|
                        0 <= j < self@.len() ==> !is_candidate(
                            #[trigger] self@[j],
                            method,
                            segments(path@),
                        )
                },
            },
    {
        proof {
            use_type_invariant(self);
        }
        let request = parse_segments(path);
        let ghost table = self@;
        let ghost req = segments(path@);
        let mut best: Option<usize> = None;
        let mut i: usize = 0;
        while i < self.routes.len()
            invariant
                i <= self.routes.len(),
                forall|k: int|
                    0 <= k < self.routes.len() ==> (#[trigger] self.routes[k]).indexed(),
                table == self@,
                table.len() == self.routes.len(),
                req == texts(request@),
                match best {
                    None => forall|j: int|
                        0 <= j < i ==> !is_candidate(#[trigger] table[j], method, req),
                    Some(b) => {
                        &&& b < i
                        &&& is_candidate(table[b as int], method, req)
                        &&& forall|j: int|
                            0 <= j < i && is_candidate(#[trigger] table[j], method, req) ==> rank(
                                segments(table[j].path),
                            ) <= rank(segments(table[b as int].path))
                        &&& forall|j: int|
                            0 <= j < b && is_candidate(#[trigger] table[j], method, req) ==> rank(
                                segments(table[j].path),
                            ) < rank(segments(table[b as int].path))
                    },
                },
            decreases self.routes.len() - i,
        {
            assert(self.routes[i as int].indexed());
            assert(table[i as int] == self.routes[i as int]@);
            if self.routes[i].operation.method == method && matches_request(
                &self.routes[i].pattern,
                &request,
            ) {
                match best {
                    None => {
                        best = Some(i);
                    },
                    Some(b) => {
                        assert(self.routes[b as int].indexed());
                        assert(table[b as int] == self.routes[b as int]@);
                        proof {
                            lemma_rank_order(
                                segments(table[i as int].path),
                                segments(table[b as int].path),
                            );
                        }
                        if more_specific(&self.routes[i].pattern, &self.routes[b].pattern) {
                            best = Some(i);
                        }
                    },
                }
            }
            i += 1;
        }
        match best {
            None => Err(RouteError::NotFound),
            Some(b) => {
                assert(self.routes[b as int].indexed());
                assert(table[b as int] == self.routes[b as int]@);
                proof {
                    let w = segments(table[b as int].path);
                    assert forall|j: int|
                        0 <= j < table.len() && is_candidate(
                            #[trigger] table[j],
                            method,
                            req,
                        ) implies !outranks(segments(table[j].path), w) by {
                        lemma_rank_order(segments(table[j].path), w);
                    }
                    assert forall|j: int|
                        0 <= j < b && is_candidate(#[trigger] table[j], method, req) implies outranks(
                        w,
                        segments(table[j].path),
                    ) by {
                        lemma_rank_order(w, segments(table[j].path));
                    }
                }
                Ok(
                    RouteMatch {
                        route: b,
                        handler: self.routes[b].operation.handler,
                        parameters: bind_parameters(&self.routes[b].pattern, &request),
                    },
                )
            },
        }
    }
}

impl Clone for MountRegistry {
    fn clone(&self) -> (r: Self)
        ensures
            r@ == self@,
    {
        proof {
            use_type_invariant(self);
        }
        let mut rows: Vec<MountedRoute> = Vec::new();
        let mut i: usize = 0;
        while i < self.routes.len()
            invariant
                i <= self.routes.len(),
                rows.len() == i,
                forall|k: int|
                    0 <= k < self.routes.len() ==> (#[trigger] self.routes[k]).indexed(),
                forall|k: int|
                    0 <= k < i ==> (#[trigger] rows[k])@ == self.routes[k]@ && rows[k].indexed(),
            decreases self.routes.len() - i,
        {
            let row = &self.routes[i];
            rows.push(
                MountedRoute {
                    operation: row.operation.duplicate(),
                    pattern: clone_strings(&row.pattern),
                },
            );
            i += 1;
        }
        assert(views(rows@) =~= views(self.routes@));
        MountRegistry { routes: rows }
    }
}

/// Whether some row has this method and qualified path.
fn holds_key(rows: &Vec<MountedRoute>, method: Method, full_path: &String) -> (b: bool)
    ensures
        b == exists|i: int|
            0 <= i < views(rows@).len() && (#[trigger] views(rows@)[i]).method == method && views(
                rows@,
            )[i].path == full_path@,
{
    let mut i: usize = 0;
    while i < rows.len()
        invariant
            i <= rows.len(),
            forall|j: int|
                0 <= j < i ==> !((#[trigger] views(rows@)[j]).method == method && views(
                    rows@,
                )[j].path == full_path@),
        decreases rows.len() - i,
    {
        assert(views(rows@)[i as int] == rows[i as int]@);
        if rows[i].operation.method == method && rows[i].operation.path == *full_path {
            return true;
        }
        i += 1;
    }
    false
}

/// A request resolves to at most one route.
pub proof fn lemma_selected_unique(
    table: Seq<OperationSpec>,
    method: Method,
    request: Seq<Seq<char>>,
    v: int,
    w: int,
)
    requires
        selected(table, method, request, v),
        selected(table, method, request, w),
    ensures
        v == w,
{
    if v < w {
        assert(is_candidate(table[v], method, request));
        assert(is_candidate(table[w], method, request));
    } else if w < v {
        assert(is_candidate(table[v], method, request));
        assert(is_candidate(table[w], method, request));
    }
}

/// Literal beats parameter: when two routes match a request and one has a
/// literal where the other first has a parameter, the request does not
/// resolve to the other, whichever was registered first.
pub proof fn lemma_literal_beats_parameter(
    table: Seq<OperationSpec>,
    method: Method,
    request: Seq<Seq<char>>,
    w: int,
    a: int,
    b: int,
)
    requires
        selected(table, method, request, w),
        0 <= a < table.len(),
        0 <= b < table.len(),
        is_candidate(table[a], method, request),
        is_candidate(table[b], method, request),
        outranks(segments(table[a].path), segments(table[b].path)),
    ensures
        w != b,
{
}

/// First registered wins: of two matching routes of which the later is not
/// more specific than the earlier, the request does not resolve to the
/// later.
pub proof fn lemma_first_registered_wins(
    table: Seq<OperationSpec>,
    method: Method,
    request: Seq<Seq<char>>,
    w: int,
    a: int,
    b: int,
)
    requires
        selected(table, method, request, w),
        0 <= a < b < table.len(),
        is_candidate(table[a], method, request),
        is_candidate(table[b], method, request),
        !outranks(segments(table[b].path), segments(table[a].path)),
    ensures
        w != b,
{
}

/// Two groups that declare the same method and fully qualified path cannot
/// both be mounted: once the first is in the table, the table extended by
/// the second has a repeated key.
pub proof fn lemma_shared_key_collides(
    table: Seq<OperationSpec>,
    first_prefix: Seq<char>,
    first: Seq<OperationSpec>,
    second_prefix: Seq<char>,
    second: Seq<OperationSpec>,
    i: int,
    j: int,
)
    requires
        0 <= i < first.len(),
        0 <= j < second.len(),
        same_key(
            mounted_operations(first_prefix, first)[i],
            mounted_operations(second_prefix, second)[j],
        ),
    ensures
        !distinct_keys(
            table + mounted_operations(first_prefix, first) + mounted_operations(
                second_prefix,
                second,
            ),
        ),
{
    let one = mounted_operations(first_prefix, first);
    let two = mounted_operations(second_prefix, second);
    let whole = table + one + two;
    assert(whole[table.len() + i] == one[i]);
    assert(whole[table.len() + one.len() + j] == two[j]);
}

} // verus!
