//! The lifecycle of the routing surface: groups are mounted, the document
//! is composed from the same groups, and from then on both are served
//! unchanged.

use crate::composer::{
    all_operations, compose, compose_outcome, composed, document_keys, first_failing, grouped,
    key_list, lemma_document_keys, lemma_first_failing, lemma_no_failure,
};
use crate::document::DocumentSpec;
use crate::error::RouteError;
use crate::model::{
    lemma_views_push, mounted_operations, views, Duplicate, GlobalMeta, GlobalMetaSpec,
    OperationSpec, RouteGroup, RouteGroupSpec, TagDescriptor, TagGroup, TagGroupSpec, TagSpec,
};
use crate::path::valid_prefix;
use crate::publisher::{document_path, DocumentPublisher};
use crate::registry::{distinct_keys, MountRegistry};
use vstd::prelude::*;

verus! {

/// Where the process stands between start and serving.
#[derive(Clone, Copy, Debug, PartialEq, Eq, Structural)]
pub enum Phase {
    /// Nothing has happened yet.
    Uninitialized,
    /// Groups are being registered.
    Mounting,
    /// The document is being built.
    Composing,
    /// Serving; nothing changes any more.
    Ready,
}

/// What moves the process from one phase to the next.
#[derive(Clone, Copy, Debug, PartialEq, Eq, Structural)]
pub enum Step {
    /// Mounting begins.
    Begin,
    /// One group is registered.
    Register,
    /// All groups are registered; composing begins.
    Compose,
    /// The composed document is published.
    Publish,
}

impl Phase {
    /// The phase after a step, where the step is allowed.
    pub open spec fn after(self, step: Step) -> Option<Phase> {
        match (self, step) {
            (Phase::Uninitialized, Step::Begin) => Some(Phase::Mounting),
            (Phase::Mounting, Step::Register) => Some(Phase::Mounting),
            (Phase::Mounting, Step::Compose) => Some(Phase::Composing),
            (Phase::Composing, Step::Publish) => Some(Phase::Ready),
            _ => None,
        }
    }

    /// The phase after a step, or `None` where the step is not allowed in
    /// this phase.
    pub fn advance(self, step: Step) -> (next: Option<Phase>)
        ensures
            next == self.after(step),
    {
        match (self, step) {
            (Phase::Uninitialized, Step::Begin) => Some(Phase::Mounting),
            (Phase::Mounting, Step::Register) => Some(Phase::Mounting),
            (Phase::Mounting, Step::Compose) => Some(Phase::Composing),
            (Phase::Composing, Step::Publish) => Some(Phase::Ready),
            _ => None,
        }
    }
}

/// Once ready, no step leads anywhere: there is no way back to mounting.
pub proof fn lemma_ready_is_final(step: Step)
    ensures
        Phase::Ready.after(step) is None,
{
}

/// Each group with the prefix it declares for itself.
pub open spec fn declared(groups: Seq<RouteGroupSpec>) -> Seq<(Seq<char>, RouteGroupSpec)> {
    Seq::new(groups.len(), |i: int| (groups[i].mount_prefix, groups[i]))
}

/// Group `g` cannot be mounted after the groups before it: its prefix is
/// invalid, or one of its operations collides.
pub open spec fn unmountable(mounted: Seq<(Seq<char>, RouteGroupSpec)>, g: int) -> bool {
    &&& 0 <= g < mounted.len()
    &&& (!valid_prefix(mounted[g].0) || !distinct_keys(all_operations(mounted.take(g + 1))))
}

/// The position of the first group from `from` on that cannot be mounted;
/// the number of groups if there is none.
pub open spec fn first_unmountable(mounted: Seq<(Seq<char>, RouteGroupSpec)>, from: int) -> int
    decreases mounted.len() - from,
{
    if from < 0 || from >= mounted.len() {
        mounted.len() as int
    } else if unmountable(mounted, from) {
        from
    } else {
        first_unmountable(mounted, from + 1)
    }
}

/// What mounting and composing gives: the document, or the error of the
/// first group that cannot be mounted, or else that of the first operation
/// that cannot be documented.
pub open spec fn mount_outcome(
    meta: GlobalMetaSpec,
    tags: Seq<TagSpec>,
    groups: Seq<TagGroupSpec>,
    mounted: Seq<(Seq<char>, RouteGroupSpec)>,
) -> Result<DocumentSpec, RouteError> {
    let g = first_unmountable(mounted, 0);
    if g < mounted.len() {
        if !valid_prefix(mounted[g].0) {
            Err(RouteError::InvalidPrefix)
        } else {
            Err(RouteError::Collision)
        }
    } else {
        compose_outcome(meta, tags, groups, mounted)
    }
}

/// The dispatch table and the groups it was built from.
#[derive(Debug, PartialEq, Eq)]
struct Mounted {
    registry: MountRegistry,
    groups: Vec<(String, RouteGroup)>,
}

/// A phase, with what belongs to it: the publisher, once ready.
#[derive(Debug, PartialEq, Eq)]
enum Stage {
    Uninitialized,
    Mounting,
    Composing,
    Ready(DocumentPublisher),
}

/// The registry, the groups it was built from and, once ready, the
/// publisher of the document composed from the same groups.
#[derive(Debug, PartialEq, Eq)]
pub struct RouteService {
    stage: Stage,
    mounted: Mounted,
}

impl RouteService {
    /// The table holds exactly the operations of the mounted groups,
    /// without a repeated key; nothing is mounted before mounting begins;
    /// and once ready, the document is published at the fixed path and
    /// documents the table.
    #[verifier::type_invariant]
    spec fn inv(self) -> bool {
        &&& distinct_keys(self.mounted.registry@)
        &&& self.mounted.registry@ == all_operations(views(self.mounted.groups@))
        &&& self.stage is Uninitialized ==> self.mounted.groups@.len() == 0
        &&& self.stage matches Stage::Ready(p) ==> {
            &&& p.path_view() == document_path()
            &&& p.document_view().paths == grouped(self.mounted.registry@)
        }
    }

    pub closed spec fn phase_view(&self) -> Phase {
        match self.stage {
            Stage::Uninitialized => Phase::Uninitialized,
            Stage::Mounting => Phase::Mounting,
            Stage::Composing => Phase::Composing,
            Stage::Ready(_) => Phase::Ready,
        }
    }

    /// The dispatch table.
    pub closed spec fn table(&self) -> Seq<OperationSpec> {
        self.mounted.registry@
    }

    /// The groups mounted so far, each with its prefix.
    pub closed spec fn mounted_view(&self) -> Seq<(Seq<char>, RouteGroupSpec)> {
        views(self.mounted.groups@)
    }

    /// The published document, once there is one.
    pub closed spec fn published(&self) -> Option<DocumentSpec> {
        match self.stage {
            Stage::Ready(p) => Some(p.document_view()),
            _ => None,
        }
    }

    /// A service in which nothing has happened yet.
    pub fn new() -> (service: Self)
        ensures
            service.phase_view() == Phase::Uninitialized,
            service.table() == all_operations(service.mounted_view()),
            service.table() == Seq::<OperationSpec>::empty(),
            service.mounted_view() == Seq::<(Seq<char>, RouteGroupSpec)>::empty(),
            service.published() is None,
    {
        let mounted = Mounted { registry: MountRegistry::new(), groups: Vec::new() };
        assert(views(mounted.groups@) =~= Seq::<(Seq<char>, RouteGroupSpec)>::empty());
        RouteService { stage: Stage::Uninitialized, mounted }
    }

    pub fn phase(&self) -> (phase: Phase)
        ensures
            phase == self.phase_view(),
    {
        match &self.stage {
            Stage::Uninitialized => Phase::Uninitialized,
            Stage::Mounting => Phase::Mounting,
            Stage::Composing => Phase::Composing,
            Stage::Ready(_) => Phase::Ready,
        }
    }

    /// The dispatch table, for resolving requests. It holds the operations
    /// of the mounted groups, no key twice.
    pub fn registry(&self) -> (registry: &MountRegistry)
        ensures
            registry@ == self.table(),
            self.table() == all_operations(self.mounted_view()),
            distinct_keys(self.table()),
    {
        proof {
            use_type_invariant(self);
        }
        &self.mounted.registry
    }

    /// The publisher of the document, once the service is ready. The
    /// document it holds documents the dispatch table.
    pub fn publisher(&self) -> (publisher: Option<&DocumentPublisher>)
        ensures
            publisher is Some <==> self.phase_view() == Phase::Ready,
            match publisher {
                Some(p) => {
                    &&& Some(p.document_view()) == self.published()
                    &&& p.path_view() == document_path()
                    &&& p.document_view().paths == grouped(self.table())
                },
                None => self.published() is None,
            },
    {
        proof {
            use_type_invariant(self);
        }
        match &self.stage {
            Stage::Ready(p) => Some(p),
            _ => None,
        }
    }

    /// Begins mounting.
    pub fn begin(&mut self)
        requires
            old(self).phase_view().after(Step::Begin) is Some,
        ensures
            final(self).phase_view() == Phase::Mounting,
            final(self).table() == all_operations(final(self).mounted_view()),
            final(self).table() == old(self).table(),
            final(self).mounted_view() == old(self).mounted_view(),
            final(self).published() is None,
    {
        proof {
            use_type_invariant(&*self);
        }
        self.stage = Stage::Mounting;
    }

    /// Mounts one group under a prefix. On an error nothing changes.
    pub fn register(&mut self, prefix: &str, group: &RouteGroup) -> (res: Result<(), RouteError>)
        requires
            old(self).phase_view().after(Step::Register) is Some,
        ensures
            final(self).phase_view() == Phase::Mounting,
            final(self).published() is None,
            final(self).table() == all_operations(final(self).mounted_view()),
            match res {
                Ok(_) => {
                    &&& !unmountable(final(self).mounted_view(), old(self).mounted_view().len() as int)
                    &&& final(self).mounted_view() == old(self).mounted_view().push(
                        (prefix@, group@),
                    )
                    &&& final(self).table() == old(self).table() + mounted_operations(
                        prefix@,
                        group@.operations,
                    )
                },
                Err(e) => {
                    &&& final(self).mounted_view() == old(self).mounted_view()
                    &&& final(self).table() == old(self).table()
                    &&& unmountable(
                        old(self).mounted_view().push((prefix@, group@)),
                        old(self).mounted_view().len() as int,
                    )
                    &&& e == if !valid_prefix(prefix@) {
                        RouteError::InvalidPrefix
                    } else {
                        RouteError::Collision
                    }
                },
            },
    {
        proof {
            use_type_invariant(&*self);
        }
        let ghost before = views(self.mounted.groups@);
        let ghost next = before.push((prefix@, group@));
        proof {
            assert(next.take(next.len() as int) =~= next);
            assert(next.drop_last() =~= before);
            assert(next.last() == (prefix@, group@));
        }
        let mut mounted = Mounted { registry: MountRegistry::new(), groups: Vec::new() };
        assert(views(mounted.groups@) =~= Seq::<(Seq<char>, RouteGroupSpec)>::empty());
        core::mem::swap(&mut self.mounted, &mut mounted);
        let res = mounted.registry.register(prefix, group);
        if res.is_ok() {
            let pair = (prefix.to_owned(), group.duplicate());
            proof {
                lemma_views_push(mounted.groups@, pair);
            }
            mounted.groups.push(pair);
        }
        self.mounted = mounted;
        res
    }

    /// Composes the document from the mounted groups and publishes it. On
    /// an error the service stays in the composing phase, for good.
    pub fn compose(
        &mut self,
        global_meta: &GlobalMeta,
        tag_descriptors: &Vec<TagDescriptor>,
        tag_groups: &Vec<TagGroup>,
    ) -> (res: Result<(), RouteError>)
        requires
            old(self).phase_view().after(Step::Compose) is Some,
        ensures
            final(self).table() == all_operations(final(self).mounted_view()),
            final(self).table() == old(self).table(),
            final(self).mounted_view() == old(self).mounted_view(),
            match res {
                Ok(_) => {
                    &&& final(self).phase_view() == Phase::Ready
                    &&& final(self).published() == Some(
                        composed(
                            global_meta@,
                            views(tag_descriptors@),
                            views(tag_groups@),
                            old(self).mounted_view(),
                        ),
                    )
                    &&& compose_outcome(
                        global_meta@,
                        views(tag_descriptors@),
                        views(tag_groups@),
                        old(self).mounted_view(),
                    ) == Ok::<DocumentSpec, RouteError>(final(self).published()->Some_0)
                },
                Err(e) => {
                    &&& final(self).phase_view() == Phase::Composing
                    &&& final(self).published() is None
                    &&& e == RouteError::UnknownTag
                    &&& compose_outcome(
                        global_meta@,
                        views(tag_descriptors@),
                        views(tag_groups@),
                        old(self).mounted_view(),
                    ) == Err::<DocumentSpec, RouteError>(e)
                },
            },
    {
        proof {
            use_type_invariant(&*self);
        }
        self.stage = Stage::Composing;
        let ghost all = all_operations(views(self.mounted.groups@));
        let ghost tags = views(tag_descriptors@);
        proof {
            lemma_first_failing(all, tags, 0);
            lemma_no_failure(all, tags);
            let n = first_failing(all, tags, 0);
            if n < all.len() {
                lemma_duplicate_needs_repeat(all, n);
            }
        }
        match compose(global_meta, tag_descriptors, tag_groups, &self.mounted.groups) {
            Err(e) => Err(e),
            Ok(document) => {
                self.stage = Stage::Ready(DocumentPublisher::serve(document));
                Ok(())
            },
        }
    }
}

/// Where keys are distinct, no operation finds its key among the earlier
/// ones.
proof fn lemma_duplicate_needs_repeat(all: Seq<OperationSpec>, n: int)
    requires
        0 <= n < all.len(),
        distinct_keys(all),
    ensures
        !crate::registry::has_key(all.take(n), all[n]),
{
    if crate::registry::has_key(all.take(n), all[n]) {
        let k = choose|k: int|
            0 <= k < all.take(n).len() && crate::model::same_key(#[trigger] all.take(n)[k], all[n]);
        assert(all.take(n)[k] == all[k]);
    }
}

/// Mounts every group under the prefix it declares, in the given order,
/// then composes and publishes the document of what was mounted. The
/// service that comes back is ready; any error is the first that mounting
/// or composing meets.
pub fn mount(
    global_meta: &GlobalMeta,
    tag_descriptors: &Vec<TagDescriptor>,
    tag_groups: &Vec<TagGroup>,
    groups: &Vec<RouteGroup>,
) -> (res: Result<RouteService, RouteError>)
    ensures
        match res {
            Ok(service) => {
                &&& service.phase_view() == Phase::Ready
                &&& service.mounted_view() == declared(views(groups@))
                &&& service.table() == all_operations(declared(views(groups@)))
                &&& mount_outcome(
                    global_meta@,
                    views(tag_descriptors@),
                    views(tag_groups@),
                    declared(views(groups@)),
                ) == Ok::<DocumentSpec, RouteError>(
                    composed(
                        global_meta@,
                        views(tag_descriptors@),
                        views(tag_groups@),
                        declared(views(groups@)),
                    ),
                )
                &&& service.published() == Some(
                    composed(
                        global_meta@,
                        views(tag_descriptors@),
                        views(tag_groups@),
                        declared(views(groups@)),
                    ),
                )
            },
            Err(e) => mount_outcome(
                global_meta@,
                views(tag_descriptors@),
                views(tag_groups@),
                declared(views(groups@)),
            ) == Err::<DocumentSpec, RouteError>(e),
        },
{
    let ghost pairs = declared(views(groups@));
    let mut service = RouteService::new();
    service.begin();
    let mut g: usize = 0;
    assert(service.mounted_view() =~= pairs.take(0));
    while g < groups.len()
        invariant
            g <= groups.len(),
            pairs == declared(views(groups@)),
            pairs.len() == groups.len(),
            service.phase_view() == Phase::Mounting,
            service.mounted_view() == pairs.take(g as int),
            first_unmountable(pairs, 0) == first_unmountable(pairs, g as int),
        decreases groups.len() - g,
    {
        let group = &groups[g];
        proof {
            assert(pairs[g as int] == (group@.mount_prefix, group@));
            assert(pairs.take(g + 1) =~= pairs.take(g as int).push(pairs[g as int]));
            assert(pairs.take(g + 1).take(g + 1) =~= pairs.take(g + 1));
        }
        match service.register(group.mount_prefix.as_str(), group) {
            Err(e) => {
                assert(unmountable(pairs, g as int));
                return Err(e);
            },
            Ok(_) => {
                assert(!unmountable(pairs, g as int));
            },
        }
        g += 1;
    }
    proof {
        assert(pairs.take(g as int) =~= pairs);
    }
    match service.compose(global_meta, tag_descriptors, tag_groups) {
        Err(e) => Err(e),
        Ok(_) => Ok(service),
    }
}

/// Table and document agree: a document whose path items are the table
/// grouped by path documents exactly the method and path pairs of the
/// table, one entry for each mounted operation. A ready service holds such
/// a table and such a document.
pub proof fn lemma_table_documented(table: Seq<OperationSpec>, document: DocumentSpec)
    requires
        distinct_keys(table),
        document.paths == grouped(table),
    ensures
        document_keys(document.paths) == key_list(table).to_set(),
        document_keys(document.paths).len() == table.len(),
{
    lemma_document_keys(table);
}

/// `first_unmountable` finds the first group from `from` on that cannot
/// be mounted.
pub proof fn lemma_first_unmountable(mounted: Seq<(Seq<char>, RouteGroupSpec)>, from: int)
    requires
        0 <= from <= mounted.len(),
    ensures
        from <= first_unmountable(mounted, from) <= mounted.len(),
        forall|g: int| from <= g < first_unmountable(mounted, from) ==> !unmountable(mounted, g),
        first_unmountable(mounted, from) < mounted.len() ==> unmountable(
            mounted,
            first_unmountable(mounted, from),
        ),
    decreases mounted.len() - from,
{
    if from < mounted.len() && !unmountable(mounted, from) {
        lemma_first_unmountable(mounted, from + 1);
    }
}

/// Operation `i` of group `g` stands in the table of the first `n` groups,
/// after all operations of the groups before `g`.
proof fn lemma_operation_position(
    mounted: Seq<(Seq<char>, RouteGroupSpec)>,
    n: int,
    g: int,
    i: int,
)
    requires
        0 <= g < n <= mounted.len(),
        0 <= i < mounted[g].1.operations.len(),
    ensures
        all_operations(mounted.take(g)).len() + mounted[g].1.operations.len() <= all_operations(
            mounted.take(n),
        ).len(),
        all_operations(mounted.take(n))[all_operations(mounted.take(g)).len() + i]
            == mounted_operations(mounted[g].0, mounted[g].1.operations)[i],
    decreases n,
{
    let upto = mounted.take(n);
    assert(upto.drop_last() =~= mounted.take(n - 1));
    assert(upto.last() == mounted[n - 1]);
    if g < n - 1 {
        lemma_operation_position(mounted, n - 1, g, i);
    }
}

/// Two operations with the same method and fully qualified path, in one
/// group or in two, cannot be mounted together: where every prefix is
/// valid, mounting fails with a collision.
pub proof fn lemma_mount_collision(
    meta: GlobalMetaSpec,
    tags: Seq<TagSpec>,
    groups: Seq<TagGroupSpec>,
    mounted: Seq<(Seq<char>, RouteGroupSpec)>,
    g: int,
    i: int,
    h: int,
    j: int,
)
    requires
        forall|k: int| 0 <= k < mounted.len() ==> valid_prefix((#[trigger] mounted[k]).0),
        0 <= g <= h < mounted.len(),
        0 <= i < mounted[g].1.operations.len(),
        0 <= j < mounted[h].1.operations.len(),
        g < h || i < j,
        crate::model::same_key(
            mounted_operations(mounted[g].0, mounted[g].1.operations)[i],
            mounted_operations(mounted[h].0, mounted[h].1.operations)[j],
        ),
    ensures
        mount_outcome(meta, tags, groups, mounted) == Err::<DocumentSpec, RouteError>(
            RouteError::Collision,
        ),
{
    let table = all_operations(mounted.take(h + 1));
    lemma_operation_position(mounted, h + 1, g, i);
    lemma_operation_position(mounted, h + 1, h, j);
    if g < h {
        lemma_operation_position(mounted, h, g, i);
    }
    let a = all_operations(mounted.take(g)).len() + i;
    let b = all_operations(mounted.take(h)).len() + j;
    assert(a < b);
    assert(crate::model::same_key(table[a], table[b]));
    assert(unmountable(mounted, h));
    lemma_first_unmountable(mounted, 0);
}

} // verus!
