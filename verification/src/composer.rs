//! The document composer: merges the documentation of every mounted group
//! into one composite document, under the configured metadata and tag
//! taxonomy.

use crate::document::{CompositeDocument, DocumentSpec, PathItem, PathItemSpec};
use crate::error::RouteError;
use crate::model::{
    duplicate_all, duplicate_opt, lemma_views_add, lemma_views_push, mounted_operations, views,
    Duplicate, GlobalMeta, GlobalMetaSpec, Method, OperationDescriptor, OperationSpec, RouteGroup,
    RouteGroupSpec, TagDescriptor, TagGroup, TagGroupSpec, TagSpec,
};
use crate::model::same_key;
use crate::registry::{distinct_keys, has_key};
use crate::text::{all_distinct, clone_strings, find_text, texts};
use vstd::prelude::*;

verus! {

/// Every operation of every mounted group under its qualified path, groups
/// in mount order and operations in declared order.
pub open spec fn all_operations(mounted: Seq<(Seq<char>, RouteGroupSpec)>) -> Seq<OperationSpec>
    decreases mounted.len(),
{
    if mounted.len() == 0 {
        Seq::empty()
    } else {
        all_operations(mounted.drop_last()) + mounted_operations(
            mounted.last().0,
            mounted.last().1.operations,
        )
    }
}

/// The names of the configured tags.
pub open spec fn tag_names(tags: Seq<TagSpec>) -> Seq<Seq<char>> {
    Seq::new(tags.len(), |i: int| tags[i].name)
}

/// Every tag that an operation uses is configured.
pub open spec fn tags_known(used: Seq<Seq<char>>, tags: Seq<TagSpec>) -> bool {
    forall|k: int| 0 <= k < used.len() ==> tag_names(tags).contains(#[trigger] used[k])
}

/// Operation `n` cannot be documented: it uses an unknown tag, or an
/// earlier operation already has its path and method.
pub open spec fn fails_at(all: Seq<OperationSpec>, tags: Seq<TagSpec>, n: int) -> bool {
    &&& 0 <= n < all.len()
    &&& (!tags_known(all[n].tags, tags) || has_key(all.take(n), all[n]))
}

/// Operation `n` is the first that cannot be documented.
pub open spec fn first_failure(all: Seq<OperationSpec>, tags: Seq<TagSpec>, n: int) -> bool {
    &&& fails_at(all, tags, n)
    &&& forall|k: int| 0 <= k < n ==> !fails_at(all, tags, k)
}

/// Every operation can be documented.
pub open spec fn no_failure(all: Seq<OperationSpec>, tags: Seq<TagSpec>) -> bool {
    forall|k: int| 0 <= k < all.len() ==> !fails_at(all, tags, k)
}

/// The error that a failing operation raises: an unknown tag is reported
/// before a duplicate path.
pub open spec fn failure_kind(all: Seq<OperationSpec>, tags: Seq<TagSpec>, n: int) -> RouteError {
    if !tags_known(all[n].tags, tags) {
        RouteError::UnknownTag
    } else {
        RouteError::DuplicatePath
    }
}

/// The distinct paths of the operations, in the order they first occur.
pub open spec fn path_order(ops: Seq<OperationSpec>) -> Seq<Seq<char>>
    decreases ops.len(),
{
    if ops.len() == 0 {
        Seq::empty()
    } else {
        let before = path_order(ops.drop_last());
        if before.contains(ops.last().path) {
            before
        } else {
            before.push(ops.last().path)
        }
    }
}

/// The operations with the given path, in order.
pub open spec fn operations_at(ops: Seq<OperationSpec>, path: Seq<char>) -> Seq<OperationSpec>
    decreases ops.len(),
{
    if ops.len() == 0 {
        Seq::empty()
    } else {
        let before = operations_at(ops.drop_last(), path);
        if ops.last().path == path {
            before.push(ops.last())
        } else {
            before
        }
    }
}

pub open spec fn path_item(ops: Seq<OperationSpec>, path: Seq<char>) -> PathItemSpec {
    PathItemSpec { path, operations: operations_at(ops, path) }
}

/// The operations grouped by path: one item per distinct path, in the
/// order of first occurrence, each holding the operations at that path.
pub open spec fn grouped(ops: Seq<OperationSpec>) -> Seq<PathItemSpec> {
    Seq::new(path_order(ops).len(), |k: int| path_item(ops, path_order(ops)[k]))
}

/// The member names of all tag groups, group after group.
pub open spec fn member_names(groups: Seq<TagGroupSpec>) -> Seq<Seq<char>>
    decreases groups.len(),
{
    if groups.len() == 0 {
        Seq::empty()
    } else {
        member_names(groups.drop_last()) + groups.last().member_tag_names
    }
}

/// The first configured tag with the given name.
pub open spec fn first_named(tags: Seq<TagSpec>, name: Seq<char>) -> Option<TagSpec>
    decreases tags.len(),
{
    if tags.len() == 0 {
        None
    } else if tags[0].name == name {
        Some(tags[0])
    } else {
        first_named(tags.drop_first(), name)
    }
}

/// The configured tags that the names stand for, in the order of the names;
/// a name that is not configured stands for nothing.
pub open spec fn resolve(names: Seq<Seq<char>>, tags: Seq<TagSpec>) -> Seq<TagSpec>
    decreases names.len(),
{
    if names.len() == 0 {
        Seq::empty()
    } else {
        let before = resolve(names.drop_last(), tags);
        match first_named(tags, names.last()) {
            Some(t) => before.push(t),
            None => before,
        }
    }
}

/// The tags without those whose name occurred earlier.
pub open spec fn dedup_by_name(tags: Seq<TagSpec>) -> Seq<TagSpec>
    decreases tags.len(),
{
    if tags.len() == 0 {
        Seq::empty()
    } else {
        let before = dedup_by_name(tags.drop_last());
        if tag_names(before).contains(tags.last().name) {
            before
        } else {
            before.push(tags.last())
        }
    }
}

/// The top-level tag list of the document: the tags that the groups name,
/// in the order the groups declare them, then the configured tags that no
/// group names, in configured order; each name once.
pub open spec fn ordered_tags(tags: Seq<TagSpec>, groups: Seq<TagGroupSpec>) -> Seq<TagSpec> {
    dedup_by_name(resolve(member_names(groups), tags) + tags)
}

/// The version of the document format that composed documents declare.
pub open spec fn document_version() -> Seq<char> {
    "3.0.0"@
}

/// The document that the inputs compose to.
pub open spec fn composed(
    meta: GlobalMetaSpec,
    tags: Seq<TagSpec>,
    groups: Seq<TagGroupSpec>,
    mounted: Seq<(Seq<char>, RouteGroupSpec)>,
) -> DocumentSpec {
    DocumentSpec {
        openapi: document_version(),
        info: meta.info,
        servers: meta.servers,
        external_docs: meta.external_docs,
        tags: ordered_tags(tags, groups),
        tag_groups: groups,
        paths: grouped(all_operations(mounted)),
        extensions: meta.extensions,
    }
}

/// The position of the first operation from `from` on that cannot be
/// documented; the number of operations if there is none.
pub open spec fn first_failing(all: Seq<OperationSpec>, tags: Seq<TagSpec>, from: int) -> int
    decreases all.len() - from,
{
    if from < 0 || from >= all.len() {
        all.len() as int
    } else if fails_at(all, tags, from) {
        from
    } else {
        first_failing(all, tags, from + 1)
    }
}

/// What composing the inputs gives: the document, or the error of the
/// first operation that cannot be documented.
pub open spec fn compose_outcome(
    meta: GlobalMetaSpec,
    tags: Seq<TagSpec>,
    groups: Seq<TagGroupSpec>,
    mounted: Seq<(Seq<char>, RouteGroupSpec)>,
) -> Result<DocumentSpec, RouteError> {
    let all = all_operations(mounted);
    let n = first_failing(all, tags, 0);
    if n == all.len() {
        Ok(composed(meta, tags, groups, mounted))
    } else {
        Err(failure_kind(all, tags, n))
    }
}

/// A result of composing, with the document taken by its view.
pub open spec fn outcome_of(res: Result<CompositeDocument, RouteError>) -> Result<
    DocumentSpec,
    RouteError,
> {
    match res {
        Ok(doc) => Ok(doc@),
        Err(e) => Err(e),
    }
}

/// The version string that okapi's `OpenApi::default_version` returns,
/// reached through rocket_okapi. The contract claims the constant that the
/// function's body holds: `3.0.0`.
#[verifier::external_body]
fn openapi_version() -> (v: String)
    ensures
        v@ == document_version(),
{
    rocket_okapi::okapi::openapi3::OpenApi::default_version()
}

/// Position of the first configured tag with the given name.
pub fn find_tag(tags: &Vec<TagDescriptor>, name: &String) -> (r: Option<usize>)
    ensures
        match r {
            Some(i) => {
                &&& i < tags.len()
                &&& tags[i as int]@.name == name@
                &&& first_named(views(tags@), name@) == Some(tags[i as int]@)
                &&& tag_names(views(tags@)).contains(name@)
            },
            None => {
                &&& first_named(views(tags@), name@) is None
                &&& !tag_names(views(tags@)).contains(name@)
            },
        },
{
    let ghost all = views(tags@);
    let mut i: usize = 0;
    assert(all.skip(0) =~= all);
    while i < tags.len()
        invariant
            i <= tags.len(),
            all == views(tags@),
            first_named(all, name@) == first_named(all.skip(i as int), name@),
            forall|j: int| 0 <= j < i ==> all[j].name != name@,
        decreases tags.len() - i,
    {
        proof {
            assert(all.skip(i as int)[0] == tags[i as int]@);
            assert(all.skip(i as int).drop_first() =~= all.skip(i + 1));
        }
        if tags[i].name == *name {
            assert(tag_names(all)[i as int] == name@);
            return Some(i);
        }
        i += 1;
    }
    proof {
        if tag_names(all).contains(name@) {
            let k = choose|k: int| 0 <= k < tag_names(all).len() && tag_names(all)[k] == name@;
            assert(all[k].name == name@);
        }
    }
    None
}

/// The member names of all groups, in one list.
fn flatten_names(groups: &Vec<TagGroup>) -> (names: Vec<String>)
    ensures
        texts(names@) == member_names(views(groups@)),
{
    let ghost all = views(groups@);
    let mut out: Vec<String> = Vec::new();
    let mut g: usize = 0;
    assert(texts(out@) =~= member_names(all.take(0)));
    while g < groups.len()
        invariant
            g <= groups.len(),
            all == views(groups@),
            texts(out@) == member_names(all.take(g as int)),
        decreases groups.len() - g,
    {
        let mut members = clone_strings(&groups[g].member_tag_names);
        proof {
            assert(all.take(g + 1).drop_last() =~= all.take(g as int));
            assert(all.take(g + 1).last() == groups[g as int]@);
            assert(texts(out@ + members@) =~= texts(out@) + texts(members@));
        }
        out.append(&mut members);
        g += 1;
    }
    proof {
        assert(all.take(g as int) =~= all);
    }
    out
}

/// The configured tags that the names stand for.
fn resolve_tags(names: &Vec<String>, tags: &Vec<TagDescriptor>) -> (found: Vec<TagDescriptor>)
    ensures
        views(found@) == resolve(texts(names@), views(tags@)),
{
    let ghost wanted = texts(names@);
    let mut out: Vec<TagDescriptor> = Vec::new();
    let mut i: usize = 0;
    assert(views(out@) =~= resolve(wanted.take(0), views(tags@)));
    while i < names.len()
        invariant
            i <= names.len(),
            wanted == texts(names@),
            views(out@) == resolve(wanted.take(i as int), views(tags@)),
        decreases names.len() - i,
    {
        proof {
            assert(wanted.take(i + 1).drop_last() =~= wanted.take(i as int));
            assert(wanted.take(i + 1).last() == names[i as int]@);
        }
        match find_tag(tags, &names[i]) {
            Some(k) => {
                let tag = tags[k].duplicate();
                proof {
                    lemma_views_push(out@, tag);
                }
                out.push(tag);
            },
            None => {},
        }
        i += 1;
    }
    proof {
        assert(wanted.take(i as int) =~= wanted);
    }
    out
}

/// Whether a tag of this name is in the list.
fn has_name(tags: &Vec<TagDescriptor>, name: &String) -> (b: bool)
    ensures
        b == tag_names(views(tags@)).contains(name@),
{
    find_tag(tags, name).is_some()
}

/// Drops every tag whose name occurred earlier in the list.
fn dedup_tags(tags: &Vec<TagDescriptor>) -> (kept: Vec<TagDescriptor>)
    ensures
        views(kept@) == dedup_by_name(views(tags@)),
{
    let ghost all = views(tags@);
    let mut out: Vec<TagDescriptor> = Vec::new();
    let mut i: usize = 0;
    assert(views(out@) =~= dedup_by_name(all.take(0)));
    while i < tags.len()
        invariant
            i <= tags.len(),
            all == views(tags@),
            views(out@) == dedup_by_name(all.take(i as int)),
        decreases tags.len() - i,
    {
        proof {
            assert(all.take(i + 1).drop_last() =~= all.take(i as int));
            assert(all.take(i + 1).last() == tags[i as int]@);
        }
        if !has_name(&out, &tags[i].name) {
            let tag = tags[i].duplicate();
            proof {
                lemma_views_push(out@, tag);
            }
            out.push(tag);
        }
        i += 1;
    }
    proof {
        assert(all.take(i as int) =~= all);
    }
    out
}

/// The top-level tag list for a tag configuration.
pub fn order_tags(tags: &Vec<TagDescriptor>, groups: &Vec<TagGroup>) -> (ordered: Vec<TagDescriptor>)
    ensures
        views(ordered@) == ordered_tags(views(tags@), views(groups@)),
{
    let names = flatten_names(groups);
    let mut candidates = resolve_tags(&names, tags);
    let mut rest = duplicate_all(tags);
    proof {
        lemma_views_add(candidates@, rest@);
    }
    candidates.append(&mut rest);
    dedup_tags(&candidates)
}

/// Every operation of every mounted group, its path qualified by the
/// prefix its group is mounted under.
pub fn qualified_operations(mounted: &Vec<(String, RouteGroup)>) -> (all: Vec<OperationDescriptor>)
    ensures
        views(all@) == all_operations(views(mounted@)),
{
    let ghost pairs = views(mounted@);
    let mut out: Vec<OperationDescriptor> = Vec::new();
    let mut g: usize = 0;
    assert(views(out@) =~= all_operations(pairs.take(0)));
    while g < mounted.len()
        invariant
            g <= mounted.len(),
            pairs == views(mounted@),
            views(out@) == all_operations(pairs.take(g as int)),
        decreases mounted.len() - g,
    {
        let prefix = &mounted[g].0;
        let group = &mounted[g].1;
        let ghost done = views(out@);
        let ghost these = mounted_operations(prefix@, group@.operations);
        proof {
            assert(pairs.take(g + 1).drop_last() =~= pairs.take(g as int));
            assert(pairs.take(g + 1).last() == mounted[g as int]@);
            assert(done + these.take(0) =~= done);
        }
        let mut i: usize = 0;
        while i < group.operations.len()
            invariant
                i <= group.operations.len(),
                these == mounted_operations(prefix@, group@.operations),
                these.len() == group.operations.len(),
                views(out@) == done + these.take(i as int),
            decreases group.operations.len() - i,
        {
            let op = group.operations[i].qualified(prefix.as_str());
            proof {
                assert(op@ == these[i as int]);
                lemma_views_push(out@, op);
                assert(done + these.take(i + 1) =~= (done + these.take(i as int)).push(
                    these[i as int],
                ));
            }
            out.push(op);
            i += 1;
        }
        proof {
            assert(these.take(i as int) =~= these);
        }
        g += 1;
    }
    proof {
        assert(pairs.take(g as int) =~= pairs);
    }
    out
}

/// A path is in the path order exactly when some operation has it.
pub proof fn lemma_path_order_contains(ops: Seq<OperationSpec>, path: Seq<char>)
    ensures
        path_order(ops).contains(path) <==> exists|i: int|
            0 <= i < ops.len() && (#[trigger] ops[i]).path == path,
    decreases ops.len(),
{
    if ops.len() > 0 {
        let init = ops.drop_last();
        let before = path_order(init);
        lemma_path_order_contains(init, path);
        if path_order(ops).contains(path) {
            if before.contains(path) {
                let i = choose|i: int| 0 <= i < init.len() && (#[trigger] init[i]).path == path;
                assert(ops[i].path == path);
            } else {
                assert(!before.contains(ops.last().path));
                let k = choose|k: int| 0 <= k < path_order(ops).len() && path_order(ops)[k] == path;
                if k < before.len() {
                    assert(before[k] == path);
                }
                assert(ops[ops.len() - 1].path == path);
            }
        }
        if exists|i: int| 0 <= i < ops.len() && (#[trigger] ops[i]).path == path {
            let i = choose|i: int| 0 <= i < ops.len() && (#[trigger] ops[i]).path == path;
            if i < init.len() {
                assert(init[i].path == path);
                let k = choose|k: int| 0 <= k < before.len() && before[k] == path;
                assert(path_order(ops)[k] == path);
            } else {
                if before.contains(path) {
                    let k = choose|k: int| 0 <= k < before.len() && before[k] == path;
                    assert(path_order(ops)[k] == path);
                } else {
                    assert(path_order(ops)[before.len() as int] == path);
                }
            }
        }
    }
}

/// No path occurs twice in the path order.
pub proof fn lemma_path_order_distinct(ops: Seq<OperationSpec>)
    ensures
        path_order(ops).no_duplicates(),
    decreases ops.len(),
{
    if ops.len() > 0 {
        lemma_path_order_distinct(ops.drop_last());
    }
}

/// The operations at a path are operations of the list with that path.
pub proof fn lemma_operations_at_members(ops: Seq<OperationSpec>, path: Seq<char>)
    ensures
        forall|k: int|
            0 <= k < operations_at(ops, path).len() ==> (#[trigger] operations_at(ops, path)[k]).path
                == path && ops.contains(operations_at(ops, path)[k]),
    decreases ops.len(),
{
    if ops.len() > 0 {
        let init = ops.drop_last();
        let before = operations_at(init, path);
        lemma_operations_at_members(init, path);
        assert forall|k: int| 0 <= k < operations_at(ops, path).len() implies (
        #[trigger] operations_at(ops, path)[k]).path == path && ops.contains(
            operations_at(ops, path)[k],
        ) by {
            if k < before.len() {
                let o = before[k];
                assert(operations_at(ops, path)[k] == o);
                let i = choose|i: int| 0 <= i < init.len() && init[i] == o;
                assert(ops[i] == o);
            } else {
                assert(ops[ops.len() - 1] == ops.last());
            }
        }
    }
}

/// Every operation of the list is among the operations at its own path.
pub proof fn lemma_operations_at_complete(ops: Seq<OperationSpec>, i: int)
    requires
        0 <= i < ops.len(),
    ensures
        operations_at(ops, ops[i].path).contains(ops[i]),
    decreases ops.len(),
{
    let path = ops[i].path;
    let init = ops.drop_last();
    if i == ops.len() - 1 {
        let at = operations_at(ops, path);
        assert(at[at.len() - 1] == ops[i]);
    } else {
        lemma_operations_at_complete(init, i);
        let before = operations_at(init, path);
        let k = choose|k: int| 0 <= k < before.len() && before[k] == init[i];
        assert(operations_at(ops, path)[k] == ops[i]);
    }
}

/// Position of the item with the given path.
fn find_path(paths: &Vec<PathItem>, path: &String) -> (r: Option<usize>)
    ensures
        match r {
            Some(k) => k < paths.len() && paths[k as int]@.path == path@,
            None => forall|j: int| 0 <= j < paths.len() ==> (#[trigger] paths[j])@.path != path@,
        },
{
    let mut i: usize = 0;
    while i < paths.len()
        invariant
            i <= paths.len(),
            forall|j: int| 0 <= j < i ==> (#[trigger] paths[j])@.path != path@,
        decreases paths.len() - i,
    {
        if paths[i].path == *path {
            return Some(i);
        }
        i += 1;
    }
    None
}

/// Whether one of the operations has the given method.
fn has_method(operations: &Vec<OperationDescriptor>, method: Method) -> (b: bool)
    ensures
        b == exists|k: int|
            0 <= k < operations.len() && (#[trigger] views(operations@)[k]).method == method,
{
    let mut i: usize = 0;
    while i < operations.len()
        invariant
            i <= operations.len(),
            forall|k: int| 0 <= k < i ==> (#[trigger] views(operations@)[k]).method != method,
        decreases operations.len() - i,
    {
        assert(views(operations@)[i as int] == operations[i as int]@);
        if operations[i].method == method {
            return true;
        }
        i += 1;
    }
    false
}

/// Documents one more operation, unless its path and method are already
/// documented.
fn insert_operation(
    paths: &mut Vec<PathItem>,
    op: OperationDescriptor,
    Ghost(seen): Ghost<Seq<OperationSpec>>,
) -> (inserted: bool)
    requires
        views(old(paths)@) == grouped(seen),
    ensures
        inserted == !has_key(seen, op@),
        inserted ==> views(final(paths)@) == grouped(seen.push(op@)),
{
    let ghost now = seen.push(op@);
    let ghost order = path_order(seen);
    proof {
        assert(now.drop_last() =~= seen);
        assert(now.last() == op@);
        lemma_path_order_contains(seen, op@.path);
        lemma_path_order_distinct(seen);
        lemma_operations_at_members(seen, op@.path);
        assert(views(paths@).len() == paths@.len());
        assert(grouped(seen).len() == order.len());
        assert forall|j: int| 0 <= j < paths@.len() implies (#[trigger] paths@[j])@ == path_item(
            seen,
            order[j],
        ) by {
            assert(views(paths@)[j] == paths@[j]@);
        }
    }
    match find_path(paths, &op.path) {
        None => {
            proof {
                assert(!order.contains(op@.path)) by {
                    if order.contains(op@.path) {
                        let k = choose|k: int| 0 <= k < order.len() && order[k] == op@.path;
                        assert(views(paths@)[k] == paths[k]@);
                    }
                }
                assert(!has_key(seen, op@));
                assert(operations_at(seen, op@.path).len() == 0) by {
                    if operations_at(seen, op@.path).len() > 0 {
                        let o = operations_at(seen, op@.path)[0];
                        assert(seen.contains(o) && o.path == op@.path);
                        let i = choose|i: int| 0 <= i < seen.len() && seen[i] == o;
                        assert(seen[i].path == op@.path);
                    }
                }
            }
            let path = op.path.clone();
            let ghost spec_op = op@;
            let mut operations: Vec<OperationDescriptor> = Vec::new();
            operations.push(op);
            let item = PathItem { path, operations };
            proof {
                assert(item@.operations =~= operations_at(now, spec_op.path));
                lemma_views_push(paths@, item);
                assert forall|k: int| 0 <= k < order.len() implies path_item(now, order[k])
                    == path_item(seen, order[k]) by {
                    assert(order.contains(order[k]));
                }
                assert(views(paths@).push(item@) =~= grouped(now));
            }
            paths.push(item);
            true
        },
        Some(k) => {
            let ghost before = views(paths@);
            proof {
                assert(before[k as int] == paths[k as int]@);
                assert(order[k as int] == op@.path);
                assert(order.contains(op@.path));
            }
            let taken = has_method(&paths[k].operations, op.method);
            proof {
                let at = operations_at(seen, op@.path);
                assert(views(paths[k as int].operations@) == at);
                if taken {
                    let j = choose|j: int| 0 <= j < at.len() && (#[trigger] at[j]).method == op.method;
                    assert(seen.contains(at[j]) && at[j].path == op@.path);
                    let i = choose|i: int| 0 <= i < seen.len() && seen[i] == at[j];
                    assert(same_key(seen[i], op@));
                } else {
                    if has_key(seen, op@) {
                        let i = choose|i: int|
                            0 <= i < seen.len() && same_key(#[trigger] seen[i], op@);
                        lemma_operations_at_complete(seen, i);
                        let j = choose|j: int| 0 <= j < at.len() && at[j] == seen[i];
                        assert(at[j].method == op.method);
                    }
                }
            }
            if taken {
                return false;
            }
            let mut item = paths.remove(k);
            proof {
                lemma_views_push(item.operations@, op);
            }
            item.operations.push(op);
            proof {
                assert(item@ == path_item(now, order[k as int]));
            }
            paths.insert(k, item);
            proof {
                assert forall|j: int| 0 <= j < order.len() implies #[trigger] views(paths@)[j]
                    == path_item(now, order[j]) by {
                    if j != k {
                        assert(views(paths@)[j] == before[j]);
                        assert(order[j] != order[k as int]);
                    }
                }
                assert(views(paths@) =~= grouped(now));
            }
            true
        },
    }
}

/// Whether every tag of the operation is configured.
fn operation_tags_known(op: &OperationDescriptor, tags: &Vec<TagDescriptor>) -> (b: bool)
    ensures
        b == tags_known(op@.tags, views(tags@)),
{
    let mut i: usize = 0;
    while i < op.tags.len()
        invariant
            i <= op.tags.len(),
            forall|k: int|
                0 <= k < i ==> tag_names(views(tags@)).contains(#[trigger] op@.tags[k]),
        decreases op.tags.len() - i,
    {
        assert(op@.tags[i as int] == op.tags[i as int]@);
        if !has_name(tags, &op.tags[i]) {
            return false;
        }
        i += 1;
    }
    true
}

/// Groups operations by path, checking each against the configured tags
/// and against those already documented.
pub fn document_operations(all: &Vec<OperationDescriptor>, tags: &Vec<TagDescriptor>) -> (res:
    Result<Vec<PathItem>, RouteError>)
    ensures
        match res {
            Ok(paths) => {
                &&& no_failure(views(all@), views(tags@))
                &&& views(paths@) == grouped(views(all@))
            },
            Err(e) => exists|n: int|
                #[trigger] first_failure(views(all@), views(tags@), n) && e == failure_kind(
                    views(all@),
                    views(tags@),
                    n,
                ),
        },
{
    let ghost ops = views(all@);
    let mut paths: Vec<PathItem> = Vec::new();
    let mut n: usize = 0;
    assert(views(paths@) =~= grouped(ops.take(0)));
    while n < all.len()
        invariant
            n <= all.len(),
            ops == views(all@),
            views(paths@) == grouped(ops.take(n as int)),
            forall|k: int| 0 <= k < n ==> !fails_at(ops, views(tags@), k),
        decreases all.len() - n,
    {
        let op = all[n].duplicate();
        assert(op@ == ops[n as int]);
        if !operation_tags_known(&op, tags) {
            assert(first_failure(ops, views(tags@), n as int));
            return Err(RouteError::UnknownTag);
        }
        let inserted = insert_operation(&mut paths, op, Ghost(ops.take(n as int)));
        if !inserted {
            assert(first_failure(ops, views(tags@), n as int));
            return Err(RouteError::DuplicatePath);
        }
        proof {
            assert(ops.take(n + 1) =~= ops.take(n as int).push(ops[n as int]));
        }
        n += 1;
    }
    proof {
        assert(ops.take(n as int) =~= ops);
    }
    Ok(paths)
}

/// Composes the document of everything that is mounted: the given
/// metadata, the tag list in documentation order, the tag groups as
/// configured, and every operation under its qualified path. Fails on the
/// first operation that uses an unknown tag or whose path and method are
/// already documented.
///
/// A prefix is read by its segments, whatever it looks like: whether a
/// group may be mounted under it is the registry's question, asked again
/// here only as far as the document needs it, key by key.
pub fn compose(
    global_meta: &GlobalMeta,
    tag_descriptors: &Vec<TagDescriptor>,
    tag_groups: &Vec<TagGroup>,
    mounted_groups: &Vec<(String, RouteGroup)>,
) -> (res: Result<CompositeDocument, RouteError>)
    ensures
        outcome_of(res) == compose_outcome(
            global_meta@,
            views(tag_descriptors@),
            views(tag_groups@),
            views(mounted_groups@),
        ),
        match res {
            Ok(doc) => {
                &&& no_failure(all_operations(views(mounted_groups@)), views(tag_descriptors@))
                &&& doc@ == composed(
                    global_meta@,
                    views(tag_descriptors@),
                    views(tag_groups@),
                    views(mounted_groups@),
                )
            },
            Err(e) => exists|n: int|
                #[trigger] first_failure(
                    all_operations(views(mounted_groups@)),
                    views(tag_descriptors@),
                    n,
                ) && e == failure_kind(
                    all_operations(views(mounted_groups@)),
                    views(tag_descriptors@),
                    n,
                ),
        },
{
    let all = qualified_operations(mounted_groups);
    proof {
        lemma_first_failing(views(all@), views(tag_descriptors@), 0);
    }
    match document_operations(&all, tag_descriptors) {
        Err(e) => Err(e),
        Ok(paths) => {
            let doc = CompositeDocument::assemble(
                openapi_version(),
                global_meta.info.duplicate(),
                duplicate_all(&global_meta.servers),
                duplicate_opt(&global_meta.external_docs),
                order_tags(tag_descriptors, tag_groups),
                duplicate_all(tag_groups),
                paths,
                duplicate_all(&global_meta.extensions),
            );
            Ok(doc)
        },
    }
}

/// `first_failing` finds the first failure from `from` on.
pub proof fn lemma_first_failing(all: Seq<OperationSpec>, tags: Seq<TagSpec>, from: int)
    requires
        0 <= from <= all.len(),
    ensures
        from <= first_failing(all, tags, from) <= all.len(),
        forall|k: int| from <= k < first_failing(all, tags, from) ==> !fails_at(all, tags, k),
        first_failing(all, tags, from) < all.len() ==> fails_at(
            all,
            tags,
            first_failing(all, tags, from),
        ),
    decreases all.len() - from,
{
    if from < all.len() && !fails_at(all, tags, from) {
        lemma_first_failing(all, tags, from + 1);
    }
}

/// Composition is a function of its inputs: two results for the same
/// metadata, tags, tag groups and mounted groups are the same, document
/// for document and error for error.
pub proof fn lemma_compose_deterministic(
    first: Result<CompositeDocument, RouteError>,
    second: Result<CompositeDocument, RouteError>,
    meta: GlobalMetaSpec,
    tags: Seq<TagSpec>,
    groups: Seq<TagGroupSpec>,
    mounted: Seq<(Seq<char>, RouteGroupSpec)>,
)
    requires
        outcome_of(first) == compose_outcome(meta, tags, groups, mounted),
        outcome_of(second) == compose_outcome(meta, tags, groups, mounted),
    ensures
        outcome_of(first) == outcome_of(second),
        first is Ok ==> second is Ok && first->Ok_0@ == second->Ok_0@,
        first is Err ==> second is Err && first->Err_0 == second->Err_0,
{
}

/// Composition succeeds exactly when every operation uses configured tags
/// only and no two operations share method and qualified path.
pub proof fn lemma_no_failure(all: Seq<OperationSpec>, tags: Seq<TagSpec>)
    ensures
        no_failure(all, tags) <==> distinct_keys(all) && forall|i: int|
            0 <= i < all.len() ==> tags_known((#[trigger] all[i]).tags, tags),
{
    if no_failure(all, tags) {
        assert forall|i: int, j: int| 0 <= i < j < all.len() implies !same_key(all[i], all[j]) by {
            assert(!fails_at(all, tags, j));
            if same_key(all[i], all[j]) {
                assert(all.take(j)[i] == all[i]);
                assert(has_key(all.take(j), all[j]));
            }
        }
        assert forall|i: int| 0 <= i < all.len() implies tags_known(
            (#[trigger] all[i]).tags,
            tags,
        ) by {
            assert(!fails_at(all, tags, i));
        }
    }
    if distinct_keys(all) && forall|i: int|
        0 <= i < all.len() ==> tags_known((#[trigger] all[i]).tags, tags) {
        assert forall|k: int| 0 <= k < all.len() implies !fails_at(all, tags, k) by {
            if has_key(all.take(k), all[k]) {
                let i = choose|i: int|
                    0 <= i < all.take(k).len() && same_key(#[trigger] all.take(k)[i], all[k]);
                assert(all.take(k)[i] == all[i]);
            }
        }
    }
}

/// An operation with a tag that is not configured makes composition fail;
/// and where no two operations share method and path, the failure is an
/// unknown tag.
pub proof fn lemma_unknown_tag_fails(
    meta: GlobalMetaSpec,
    tags: Seq<TagSpec>,
    groups: Seq<TagGroupSpec>,
    mounted: Seq<(Seq<char>, RouteGroupSpec)>,
    i: int,
    t: int,
)
    requires
        0 <= i < all_operations(mounted).len(),
        0 <= t < all_operations(mounted)[i].tags.len(),
        !tag_names(tags).contains(all_operations(mounted)[i].tags[t]),
    ensures
        compose_outcome(meta, tags, groups, mounted) is Err,
        distinct_keys(all_operations(mounted)) ==> compose_outcome(meta, tags, groups, mounted)
            == Err::<DocumentSpec, RouteError>(RouteError::UnknownTag),
{
    let all = all_operations(mounted);
    lemma_first_failing(all, tags, 0);
    let n = first_failing(all, tags, 0);
    assert(!tags_known(all[i].tags, tags));
    assert(fails_at(all, tags, i));
    if distinct_keys(all) {
        if has_key(all.take(n), all[n]) {
            let k = choose|k: int|
                0 <= k < all.take(n).len() && same_key(#[trigger] all.take(n)[k], all[n]);
            assert(all.take(n)[k] == all[k]);
        }
    }
}

/// The method and path pairs of a list of operations.
pub open spec fn key_list(ops: Seq<OperationSpec>) -> Seq<(Seq<char>, Method)> {
    Seq::new(ops.len(), |i: int| (ops[i].path, ops[i].method))
}

/// Item `k` of the path items documents an operation, its `j`th, under the
/// given path and method.
pub open spec fn documents(
    paths: Seq<PathItemSpec>,
    k: int,
    j: int,
    key: (Seq<char>, Method),
) -> bool {
    &&& 0 <= k < paths.len()
    &&& 0 <= j < paths[k].operations.len()
    &&& paths[k].path == key.0
    &&& paths[k].operations[j].method == key.1
}

/// The path and method pairs that a list of path items documents.
pub open spec fn document_keys(paths: Seq<PathItemSpec>) -> Set<(Seq<char>, Method)> {
    Set::new(|key: (Seq<char>, Method)| exists|k: int, j: int| documents(paths, k, j, key))
}

/// Nothing is lost and nothing collapses: the keys of the grouped document
/// are exactly the path and method pairs of the operations, and where
/// those pairs are distinct there are as many keys as operations.
pub proof fn lemma_document_keys(ops: Seq<OperationSpec>)
    ensures
        document_keys(grouped(ops)) == key_list(ops).to_set(),
        document_keys(grouped(ops)).finite(),
        distinct_keys(ops) ==> document_keys(grouped(ops)).len() == ops.len(),
{
    let paths = grouped(ops);
    let order = path_order(ops);
    let keys = key_list(ops);
    assert forall|key: (Seq<char>, Method)| document_keys(paths).contains(key) implies keys.to_set().contains(
        key,
    ) by {
        let (k, j) = choose|k: int, j: int| documents(paths, k, j, key);
        lemma_operations_at_members(ops, order[k]);
        let o = operations_at(ops, order[k])[j];
        assert(ops.contains(o) && o.path == order[k]);
        let i = choose|i: int| 0 <= i < ops.len() && ops[i] == o;
        assert(keys[i] == key);
    }
    assert forall|key: (Seq<char>, Method)| keys.to_set().contains(key) implies document_keys(
        paths,
    ).contains(key) by {
        let i = choose|i: int| 0 <= i < keys.len() && keys[i] == key;
        lemma_path_order_contains(ops, ops[i].path);
        let k = choose|k: int| 0 <= k < order.len() && order[k] == ops[i].path;
        lemma_operations_at_complete(ops, i);
        let at = operations_at(ops, ops[i].path);
        let j = choose|j: int| 0 <= j < at.len() && at[j] == ops[i];
        assert(documents(paths, k, j, key));
    }
    assert(document_keys(paths) =~= keys.to_set());
    vstd::seq_lib::seq_to_set_is_finite(keys);
    if distinct_keys(ops) {
        assert(keys.no_duplicates()) by {
            assert forall|a: int, b: int| 0 <= a < keys.len() && 0 <= b < keys.len() && a
                != b implies keys[a] != keys[b] by {
                if a < b {
                    assert(!same_key(ops[a], ops[b]));
                } else {
                    assert(!same_key(ops[b], ops[a]));
                }
            }
        }
        keys.unique_seq_to_set();
    }
}

/// The tag configuration is consistent: no two tags share a name, every
/// name that a group lists is a configured tag, and no name is listed
/// twice, in one group or in two.
pub open spec fn taxonomy_consistent(tags: Seq<TagSpec>, groups: Seq<TagGroupSpec>) -> bool {
    &&& tag_names(tags).no_duplicates()
    &&& member_names(groups).no_duplicates()
    &&& forall|k: int|
        0 <= k < member_names(groups).len() ==> tag_names(tags).contains(
            #[trigger] member_names(groups)[k],
        )
}

/// The names of the tags, in order.
fn names_of(tags: &Vec<TagDescriptor>) -> (names: Vec<String>)
    ensures
        texts(names@) == tag_names(views(tags@)),
{
    let mut out: Vec<String> = Vec::new();
    let mut i: usize = 0;
    while i < tags.len()
        invariant
            i <= tags.len(),
            out.len() == i,
            forall|j: int| 0 <= j < i ==> out[j]@ == tags[j]@.name,
        decreases tags.len() - i,
    {
        out.push(tags[i].name.clone());
        i += 1;
    }
    assert(texts(out@) =~= tag_names(views(tags@)));
    out
}

/// Whether a tag configuration is consistent.
pub fn check_taxonomy(tags: &Vec<TagDescriptor>, groups: &Vec<TagGroup>) -> (ok: bool)
    ensures
        ok == taxonomy_consistent(views(tags@), views(groups@)),
{
    let names = names_of(tags);
    let members = flatten_names(groups);
    if !all_distinct(&names) || !all_distinct(&members) {
        return false;
    }
    let mut k: usize = 0;
    while k < members.len()
        invariant
            k <= members.len(),
            texts(names@) == tag_names(views(tags@)),
            texts(members@) == member_names(views(groups@)),
            forall|j: int|
                0 <= j < k ==> tag_names(views(tags@)).contains(
                    #[trigger] member_names(views(groups@))[j],
                ),
        decreases members.len() - k,
    {
        assert(texts(members@)[k as int] == members[k as int]@);
        match find_text(&names, &members[k]) {
            None => {
                return false;
            },
            Some(i) => {
                assert(texts(names@)[i as int] == members[k as int]@);
            },
        }
        k += 1;
    }
    true
}

/// The first tag of a name, where there is one, is a configured tag of
/// that name.
pub proof fn lemma_first_named(tags: Seq<TagSpec>, name: Seq<char>)
    ensures
        match first_named(tags, name) {
            Some(t) => tags.contains(t) && t.name == name,
            None => !tag_names(tags).contains(name),
        },
    decreases tags.len(),
{
    if tags.len() > 0 {
        if tags[0].name == name {
            assert(tags[0] == tags[0]);
        } else {
            let rest = tags.drop_first();
            lemma_first_named(rest, name);
            match first_named(rest, name) {
                Some(t) => {
                    let k = choose|k: int| 0 <= k < rest.len() && rest[k] == t;
                    assert(tags[k + 1] == t);
                },
                None => {
                    if tag_names(tags).contains(name) {
                        let k = choose|k: int|
                            0 <= k < tag_names(tags).len() && tag_names(tags)[k] == name;
                        assert(tag_names(rest)[k - 1] == name);
                    }
                },
            }
        }
    }
}

proof fn lemma_resolve_members(names: Seq<Seq<char>>, tags: Seq<TagSpec>)
    ensures
        forall|k: int|
            0 <= k < resolve(names, tags).len() ==> tags.contains(#[trigger] resolve(names, tags)[k]),
    decreases names.len(),
{
    if names.len() > 0 {
        let before = resolve(names.drop_last(), tags);
        let now = resolve(names, tags);
        lemma_resolve_members(names.drop_last(), tags);
        lemma_first_named(tags, names.last());
        assert forall|k: int| 0 <= k < now.len() implies tags.contains(#[trigger] now[k]) by {
            if k < before.len() {
                assert(now[k] == before[k]);
            }
        }
    }
}

proof fn lemma_dedup_by_name(tags: Seq<TagSpec>)
    ensures
        tag_names(dedup_by_name(tags)).no_duplicates(),
        forall|i: int|
            0 <= i < tags.len() ==> tag_names(dedup_by_name(tags)).contains((#[trigger] tags[i]).name),
        forall|k: int|
            0 <= k < dedup_by_name(tags).len() ==> tags.contains(#[trigger] dedup_by_name(tags)[k]),
    decreases tags.len(),
{
    if tags.len() > 0 {
        let init = tags.drop_last();
        let before = dedup_by_name(init);
        let now = dedup_by_name(tags);
        lemma_dedup_by_name(init);
        assert forall|k: int| 0 <= k < before.len() implies now[k] == before[k]
            && tag_names(now)[k] == tag_names(before)[k] by {}
        assert forall|i: int| 0 <= i < tags.len() implies tag_names(now).contains(
            (#[trigger] tags[i]).name,
        ) by {
            if i < init.len() {
                assert(init[i] == tags[i]);
                let k = choose|k: int|
                    0 <= k < tag_names(before).len() && tag_names(before)[k] == init[i].name;
                assert(tag_names(now)[k] == tags[i].name);
            } else if tag_names(before).contains(tags.last().name) {
                let k = choose|k: int|
                    0 <= k < tag_names(before).len() && tag_names(before)[k] == tags.last().name;
                assert(tag_names(now)[k] == tags[i].name);
            } else {
                assert(tag_names(now)[before.len() as int] == tags[i].name);
            }
        }
        assert forall|k: int| 0 <= k < now.len() implies tags.contains(#[trigger] now[k]) by {
            if k < before.len() {
                let i = choose|i: int| 0 <= i < init.len() && init[i] == before[k];
                assert(tags[i] == now[k]);
            } else {
                assert(tags[tags.len() - 1] == now[k]);
            }
        }
        assert forall|a: int, b: int|
            0 <= a < tag_names(now).len() && 0 <= b < tag_names(now).len() && a
                != b implies tag_names(now)[a] != tag_names(now)[b] by {
            if a < before.len() && b < before.len() {
                assert(tag_names(before)[a] != tag_names(before)[b]);
            } else if a < before.len() {
                assert(tag_names(before)[a] == tag_names(now)[a]);
            } else if b < before.len() {
                assert(tag_names(before)[b] == tag_names(now)[b]);
            }
        }
    }
}

/// The tag list of the document names no tag twice, drops no configured
/// tag, and holds configured tags only.
pub proof fn lemma_ordered_tags(tags: Seq<TagSpec>, groups: Seq<TagGroupSpec>)
    ensures
        tag_names(ordered_tags(tags, groups)).no_duplicates(),
        forall|i: int|
            0 <= i < tags.len() ==> tag_names(ordered_tags(tags, groups)).contains(
                (#[trigger] tags[i]).name,
            ),
        forall|k: int|
            0 <= k < ordered_tags(tags, groups).len() ==> tags.contains(
                #[trigger] ordered_tags(tags, groups)[k],
            ),
{
    let named = resolve(member_names(groups), tags);
    let candidates = named + tags;
    lemma_dedup_by_name(candidates);
    lemma_resolve_members(member_names(groups), tags);
    assert forall|i: int| 0 <= i < tags.len() implies tag_names(
        ordered_tags(tags, groups),
    ).contains((#[trigger] tags[i]).name) by {
        assert(candidates[named.len() + i] == tags[i]);
    }
    assert forall|k: int| 0 <= k < ordered_tags(tags, groups).len() implies tags.contains(
        #[trigger] ordered_tags(tags, groups)[k],
    ) by {
        let t = ordered_tags(tags, groups)[k];
        let c = choose|c: int| 0 <= c < candidates.len() && candidates[c] == t;
        if c < named.len() {
            assert(named[c] == t);
        } else {
            assert(tags[c - named.len()] == t);
        }
    }
}

/// Where composition succeeds, the document has one key, a path with a
/// method, for each mounted operation: as many keys as operations.
pub proof fn lemma_composed_keys(
    meta: GlobalMetaSpec,
    tags: Seq<TagSpec>,
    groups: Seq<TagGroupSpec>,
    mounted: Seq<(Seq<char>, RouteGroupSpec)>,
)
    requires
        compose_outcome(meta, tags, groups, mounted) is Ok,
    ensures
        document_keys(compose_outcome(meta, tags, groups, mounted)->Ok_0.paths) == key_list(
            all_operations(mounted),
        ).to_set(),
        document_keys(compose_outcome(meta, tags, groups, mounted)->Ok_0.paths).len()
            == all_operations(mounted).len(),
{
    let all = all_operations(mounted);
    lemma_first_failing(all, tags, 0);
    lemma_no_failure(all, tags);
    lemma_document_keys(all);
}

/// The tags of all operations, operation after operation.
pub open spec fn used_tags(all: Seq<OperationSpec>) -> Seq<Seq<char>>
    decreases all.len(),
{
    if all.len() == 0 {
        Seq::empty()
    } else {
        used_tags(all.drop_last()) + all.last().tags
    }
}

/// The names that are not listed, each once, in the order they first
/// occur.
pub open spec fn unlisted(names: Seq<Seq<char>>, listed: Seq<Seq<char>>) -> Seq<Seq<char>>
    decreases names.len(),
{
    if names.len() == 0 {
        Seq::empty()
    } else {
        let before = unlisted(names.drop_last(), listed);
        if listed.contains(names.last()) || before.contains(names.last()) {
            before
        } else {
            before.push(names.last())
        }
    }
}

/// The gaps in the documentation of a set of operations: the tags in use
/// that no tag group lists. Such a tag is documented but shown under no
/// group; composition does not fail on it.
pub fn documentation_gaps(operations: &Vec<OperationDescriptor>, tag_groups: &Vec<TagGroup>) -> (gaps:
    Vec<String>)
    ensures
        texts(gaps@) == unlisted(used_tags(views(operations@)), member_names(views(tag_groups@))),
{
    let listed = flatten_names(tag_groups);
    let ghost all = views(operations@);
    let mut used: Vec<String> = Vec::new();
    let mut n: usize = 0;
    assert(texts(used@) =~= used_tags(all.take(0)));
    while n < operations.len()
        invariant
            n <= operations.len(),
            all == views(operations@),
            texts(used@) == used_tags(all.take(n as int)),
        decreases operations.len() - n,
    {
        let mut tags = clone_strings(&operations[n].tags);
        proof {
            assert(all.take(n + 1).drop_last() =~= all.take(n as int));
            assert(all.take(n + 1).last() == operations[n as int]@);
            assert(texts(used@ + tags@) =~= texts(used@) + texts(tags@));
        }
        used.append(&mut tags);
        n += 1;
    }
    proof {
        assert(all.take(n as int) =~= all);
    }
    let ghost names = texts(used@);
    let mut out: Vec<String> = Vec::new();
    let mut i: usize = 0;
    assert(texts(out@) =~= unlisted(names.take(0), texts(listed@)));
    while i < used.len()
        invariant
            i <= used.len(),
            names == texts(used@),
            texts(out@) == unlisted(names.take(i as int), texts(listed@)),
        decreases used.len() - i,
    {
        proof {
            assert(names.take(i + 1).drop_last() =~= names.take(i as int));
            assert(names.take(i + 1).last() == used[i as int]@);
        }
        let is_listed = match find_text(&listed, &used[i]) {
            Some(k) => {
                assert(texts(listed@)[k as int] == used[i as int]@);
                true
            },
            None => false,
        };
        let is_seen = match find_text(&out, &used[i]) {
            Some(k) => {
                assert(texts(out@)[k as int] == used[i as int]@);
                true
            },
            None => false,
        };
        if !is_listed && !is_seen {
            let name = used[i].clone();
            proof {
                crate::text::lemma_texts_push(out@, name);
            }
            out.push(name);
        }
        i += 1;
    }
    proof {
        assert(names.take(i as int) =~= names);
    }
    out
}

} // verus!
