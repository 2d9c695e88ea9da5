//! The routing table: which applications are routed, which mix sources the
//! output callback reads, and when the output callback must be opened or closed.
//!
//! Each step of adding or removing a route is one method here; the host
//! performs the capture and device work between the steps and reports back.
use vstd::prelude::*;

verus! {

broadcast use vstd::seq_lib::group_seq_properties;

/// A route as the table records it: the application's bundle identifier and
/// the identity of the mix source that carries its audio.
pub type RouteView = (Seq<char>, u64);

/// The abstract state of a routing table.
#[verifier::ext_equal]
pub struct RoutingView {
    /// Active routes, by bundle identifier.
    pub routes: Seq<RouteView>,
    /// Mix sources the output callback reads, in the order they were registered.
    pub snapshot: Seq<u64>,
    /// The output callback on the loopback device is open.
    pub io_proc_open: bool,
}

/// No two elements of `s` have the same key.
pub open spec fn keys_distinct<A, K>(s: Seq<A>, key: spec_fn(A) -> K) -> bool {
    forall|i: int, j: int| 0 <= i < j < s.len() ==> key(s[i]) != key(s[j])
}

/// Keeps every source but `id`.
pub open spec fn other_source(id: u64) -> spec_fn(u64) -> bool {
    |x: u64| x != id
}

/// Keeps every route but those of `bundle`.
pub open spec fn other_bundle(bundle: Seq<char>) -> spec_fn(RouteView) -> bool {
    |r: RouteView| r.0 != bundle
}

/// The key of a route: its bundle identifier.
pub open spec fn route_key() -> spec_fn(RouteView) -> Seq<char> {
    |r: RouteView| r.0
}

/// The source of the first route for `bundle`, if there is one.
pub open spec fn find_route(routes: Seq<RouteView>, bundle: Seq<char>) -> Option<u64>
    decreases routes.len(),
{
    if routes.len() == 0 {
        None
    } else if routes[0].0 == bundle {
        Some(routes[0].1)
    } else {
        find_route(routes.drop_first(), bundle)
    }
}

impl RoutingView {
    /// Bundle identifiers are distinct and no mix source is listed twice.
    pub open spec fn wf(self) -> bool {
        &&& keys_distinct(self.routes, route_key())
        &&& self.snapshot.no_duplicates()
    }

    /// `bundle` is routed.
    pub open spec fn has_route(self, bundle: Seq<char>) -> bool {
        find_route(self.routes, bundle) is Some
    }

    /// The output callback has been opened.
    pub open spec fn after_io_proc_opened(self) -> RoutingView {
        RoutingView { routes: self.routes, snapshot: self.snapshot, io_proc_open: true }
    }

    /// Building the new route's source failed: the callback opened for it closes.
    pub open spec fn abandon_closes(self, was_first: bool) -> bool {
        was_first && self.io_proc_open
    }

    pub open spec fn after_abandon(self, was_first: bool) -> RoutingView {
        RoutingView {
            routes: self.routes,
            snapshot: self.snapshot,
            io_proc_open: self.io_proc_open && !self.abandon_closes(was_first),
        }
    }

    /// The mix source `id` joins the end of the snapshot.
    pub open spec fn after_register(self, id: u64) -> RoutingView {
        RoutingView { routes: self.routes, snapshot: self.snapshot.push(id), io_proc_open: self.io_proc_open }
    }

    /// The snapshot without the source `id`.
    pub open spec fn snapshot_without(self, id: u64) -> Seq<u64> {
        self.snapshot.filter(other_source(id))
    }

    /// Starting the capture failed: the callback closes when the route's add
    /// opened it and no source is left.
    pub open spec fn rollback_closes(self, id: u64, was_first: bool) -> bool {
        was_first && self.snapshot_without(id).len() == 0 && self.io_proc_open
    }

    pub open spec fn after_rollback(self, id: u64, was_first: bool) -> RoutingView {
        RoutingView {
            routes: self.routes,
            snapshot: self.snapshot_without(id),
            io_proc_open: self.io_proc_open && !self.rollback_closes(id, was_first),
        }
    }

    /// The routes without any route for `bundle`.
    pub open spec fn routes_without(self, bundle: Seq<char>) -> Seq<RouteView> {
        self.routes.filter(other_bundle(bundle))
    }

    /// The capture started: `bundle` is routed through source `id`, replacing
    /// any earlier route for it.
    pub open spec fn after_activate(self, bundle: Seq<char>, id: u64) -> RoutingView {
        RoutingView {
            routes: self.routes_without(bundle).push((bundle, id)),
            snapshot: self.snapshot,
            io_proc_open: self.io_proc_open,
        }
    }

    /// Removing `bundle` leaves no source, so the output callback closes.
    pub open spec fn remove_closes(self, bundle: Seq<char>) -> bool {
        match find_route(self.routes, bundle) {
            Some(id) => self.snapshot_without(id).len() == 0 && self.io_proc_open,
            None => false,
        }
    }

    /// The route for `bundle` and its mix source are gone; nothing changes
    /// when `bundle` was not routed.
    pub open spec fn after_remove(self, bundle: Seq<char>) -> RoutingView {
        match find_route(self.routes, bundle) {
            Some(id) => RoutingView {
                routes: self.routes_without(bundle),
                snapshot: self.snapshot_without(id),
                io_proc_open: self.io_proc_open && !self.remove_closes(bundle),
            },
            None => self,
        }
    }
}

/// Why a route cannot be added.
#[derive(Clone, Copy, Debug, PartialEq, Eq, Structural)]
pub enum RouteError {
    /// The application is already being routed.
    AlreadyRouted,
}

/// What removing a route asks of the host.
#[derive(Clone, Copy, Debug, PartialEq, Eq, Structural)]
pub struct RemoveOutcome {
    /// The mix source of the removed route, if there was a route.
    pub source: Option<u64>,
    /// The output callback must be closed.
    pub close_io_proc: bool,
}

struct Route {
    bundle_id: String,
    source: u64,
}

spec fn route_view(r: Route) -> RouteView {
    (r.bundle_id@, r.source)
}

/// The routing state of the mixer.
pub struct RoutingTable {
    routes: Vec<Route>,
    snapshot: Vec<u64>,
    io_proc_open: bool,
}

impl View for RoutingTable {
    type V = RoutingView;

    closed spec fn view(&self) -> RoutingView {
        RoutingView {
            routes: self.routes@.map_values(|r: Route| route_view(r)),
            snapshot: self.snapshot@,
            io_proc_open: self.io_proc_open,
        }
    }
}

/// Filtering keeps keys distinct.
pub proof fn lemma_filter_keys_distinct<A, K>(s: Seq<A>, p: spec_fn(A) -> bool, key: spec_fn(A) -> K)
    requires
        keys_distinct(s, key),
    ensures
        keys_distinct(s.filter(p), key),
    decreases s.len(),
{
    reveal(Seq::filter);
    if s.len() > 0 {
        let sub = s.drop_last();
        assert(keys_distinct(sub, key));
        lemma_filter_keys_distinct(sub, p, key);
        if p(s.last()) {
            let f = sub.filter(p);
            assert forall|k: int| 0 <= k < f.len() implies key(f[k]) != key(s.last()) by {
                sub.lemma_filter_contains_rev(p, f[k]);
                let m = choose|m: int| 0 <= m < sub.len() && sub[m] == f[k];
                assert(s[m] == f[k]);
            }
            assert(s.filter(p) == f.push(s.last()));
        }
    }
}

/// Filtering a sequence without duplicates gives one without duplicates.
pub proof fn lemma_filter_no_duplicates(s: Seq<u64>, p: spec_fn(u64) -> bool)
    requires
        s.no_duplicates(),
    ensures
        s.filter(p).no_duplicates(),
{
    lemma_filter_keys_distinct(s, p, |x: u64| x);
}

/// `find_route` finds nothing exactly when no route has the key.
pub proof fn lemma_find_route_none(routes: Seq<RouteView>, bundle: Seq<char>)
    ensures
        (find_route(routes, bundle) is None) <==> (forall|i: int|
            0 <= i < routes.len() ==> #[trigger] routes[i].0 != bundle),
    decreases routes.len(),
{
    if routes.len() > 0 {
        lemma_find_route_none(routes.drop_first(), bundle);
        let rest = routes.drop_first();
        assert forall|i: int| 0 < i < routes.len() implies routes[i] == rest[i - 1] by {}
        if routes[0].0 != bundle && find_route(routes, bundle) is Some {
            let k = choose|k: int| 0 <= k < rest.len() && rest[k].0 == bundle;
            assert(routes[k + 1] == rest[k]);
        }
        if routes[0].0 != bundle && find_route(routes, bundle) is None {
            assert forall|i: int| 0 <= i < routes.len() implies #[trigger] routes[i].0 != bundle by {
                if i > 0 {
                    assert(routes[i] == rest[i - 1]);
                }
            }
        }
    }
}

/// With distinct keys, the route found for `bundle` is the route that has it.
pub proof fn lemma_find_route_at(routes: Seq<RouteView>, bundle: Seq<char>, i: int)
    requires
        keys_distinct(routes, route_key()),
        0 <= i < routes.len(),
        routes[i].0 == bundle,
    ensures
        find_route(routes, bundle) == Some(routes[i].1),
    decreases routes.len(),
{
    if i > 0 {
        assert(routes[0].0 != routes[i].0);
        let rest = routes.drop_first();
        assert(keys_distinct(rest, route_key())) by {
            assert forall|a: int, b: int| 0 <= a < b < rest.len() implies rest[a].0 != rest[b].0 by {
                assert(rest[a] == routes[a + 1]);
                assert(rest[b] == routes[b + 1]);
            }
        }
        assert(rest[i - 1] == routes[i]);
        lemma_find_route_at(rest, bundle, i - 1);
    }
}

impl RoutingTable {
    #[verifier::type_invariant]
    spec fn inv(&self) -> bool {
        self@.wf()
    }

    /// An empty table: nothing routed, no source, the output callback closed.
    pub fn new() -> (r: Self)
        ensures
            r@.routes == Seq::<RouteView>::empty(),
            r@.snapshot == Seq::<u64>::empty(),
            !r@.io_proc_open,
    {
        let r = RoutingTable { routes: Vec::new(), snapshot: Vec::new(), io_proc_open: false };
        assert(r@.routes =~= Seq::<RouteView>::empty());
        r
    }

    /// The mix source of the route for `bundle`, if it is routed.
    pub fn route_source(&self, bundle: &String) -> (r: Option<u64>)
        ensures
            r == find_route(self@.routes, bundle@),
    {
        let ghost v = self@.routes;
        assert(v.subrange(0, v.len() as int) =~= v);
        let mut i: usize = 0;
        while i < self.routes.len()
            invariant
                i <= self.routes@.len(),
                v == self.routes@.map_values(|r: Route| route_view(r)),
                find_route(v, bundle@) == find_route(v.subrange(i as int, v.len() as int), bundle@),
            decreases self.routes@.len() - i,
        {
            let ghost rest = v.subrange(i as int, v.len() as int);
            assert(rest[0] == v[i as int]);
            assert(rest.drop_first() =~= v.subrange(i + 1, v.len() as int));
            if self.routes[i].bundle_id == *bundle {
                return Some(self.routes[i].source);
            }
            i = i + 1;
        }
        None
    }

    /// `bundle` is routed.
    pub fn is_routed(&self, bundle: &String) -> (r: bool)
        ensures
            r == self@.has_route(bundle@),
    {
        self.route_source(bundle).is_some()
    }

    /// The mix source `id` is in the snapshot.
    pub fn has_source(&self, id: u64) -> (r: bool)
        ensures
            r == self@.snapshot.contains(id),
    {
        let mut i: usize = 0;
        while i < self.snapshot.len()
            invariant
                i <= self.snapshot@.len(),
                forall|k: int| 0 <= k < i ==> self.snapshot@[k] != id,
            decreases self.snapshot@.len() - i,
        {
            if self.snapshot[i] == id {
                return true;
            }
            i = i + 1;
        }
        false
    }

    /// The output callback is open.
    pub fn io_proc_open(&self) -> (r: bool)
        ensures
            r == self@.io_proc_open,
    {
        self.io_proc_open
    }

    /// The mix sources the output callback reads, in order.
    pub fn snapshot(&self) -> (r: Vec<u64>)
        ensures
            r@ == self@.snapshot,
    {
        let mut out: Vec<u64> = Vec::new();
        let mut i: usize = 0;
        while i < self.snapshot.len()
            invariant
                i <= self.snapshot@.len(),
                out@ == self.snapshot@.take(i as int),
            decreases self.snapshot@.len() - i,
        {
            out.push(self.snapshot[i]);
            i = i + 1;
            assert(out@ =~= self.snapshot@.take(i as int));
        }
        assert(out@ =~= self.snapshot@);
        out
    }

    /// First step of adding a route: refuses an application that is already
    /// routed; otherwise says whether this is the first route, which must
    /// open the output callback.
    pub fn plan_add(&self, bundle: &String) -> (r: Result<bool, RouteError>)
        ensures
            self@.has_route(bundle@) ==> r == Err::<bool, RouteError>(RouteError::AlreadyRouted),
            !self@.has_route(bundle@) ==> r == Ok::<bool, RouteError>(!self@.io_proc_open),
    {
        if self.is_routed(bundle) {
            Err(RouteError::AlreadyRouted)
        } else {
            Ok(!self.io_proc_open)
        }
    }

    /// The host opened the output callback.
    pub fn io_proc_opened(&mut self)
        ensures
            final(self)@ == old(self)@.after_io_proc_opened(),
    {
        proof {
            use_type_invariant(&*self);
        }
        self.io_proc_open = true;
    }

    /// Building the new route's source failed. Returns whether the host must
    /// close the output callback that was opened for this route.
    pub fn abandon_add(&mut self, was_first: bool) -> (close: bool)
        ensures
            close == old(self)@.abandon_closes(was_first),
            final(self)@ == old(self)@.after_abandon(was_first),
            close ==> was_first && old(self)@.io_proc_open,
            !was_first ==> !close && final(self)@ == old(self)@,
            final(self)@.routes == old(self)@.routes,
            final(self)@.snapshot == old(self)@.snapshot,
            final(self)@.io_proc_open == (old(self)@.io_proc_open && !close),
    {
        proof {
            use_type_invariant(&*self);
        }
        let close = was_first && self.io_proc_open;
        if close {
            self.io_proc_open = false;
        }
        close
    }

    /// Adds the mix source `id` to the end of the snapshot, before its
    /// capture starts. `id` must not be in the snapshot already.
    pub fn register_source(&mut self, id: u64)
        requires
            !old(self)@.snapshot.contains(id),
        ensures
            final(self)@ == old(self)@.after_register(id),
    {
        proof {
            use_type_invariant(&*self);
        }
        let mut snap: Vec<u64> = Vec::new();
        std::mem::swap(&mut snap, &mut self.snapshot);
        snap.push(id);
        self.snapshot = snap;
    }

    fn remove_source(&mut self, id: u64)
        ensures
            final(self)@ == (RoutingView {
                routes: old(self)@.routes,
                snapshot: old(self)@.snapshot_without(id),
                io_proc_open: old(self)@.io_proc_open,
            }),
    {
        proof {
            use_type_invariant(&*self);
        }
        let ghost old_snap = self.snapshot@;
        let mut kept: Vec<u64> = Vec::new();
        let mut i: usize = 0;
        while i < self.snapshot.len()
            invariant
                i <= old_snap.len(),
                self.snapshot@ == old_snap,
                kept@ == old_snap.take(i as int).filter(other_source(id)),
            decreases old_snap.len() - i,
        {
            proof {
                assert(old_snap.take(i + 1) =~= old_snap.take(i as int).push(old_snap[i as int]));
                old_snap.take(i as int).lemma_filter_push(old_snap[i as int], other_source(id));
            }
            let x = self.snapshot[i];
            if x != id {
                kept.push(x);
            }
            i = i + 1;
        }
        assert(old_snap.take(old_snap.len() as int) =~= old_snap);
        proof {
            lemma_filter_no_duplicates(old_snap, other_source(id));
        }
        self.snapshot = kept;
    }

    /// Starting the capture failed: withdraws the source `id` from the
    /// snapshot. Returns whether the host must close the output callback.
    pub fn rollback_source(&mut self, id: u64, was_first: bool) -> (close: bool)
        ensures
            close == old(self)@.rollback_closes(id, was_first),
            final(self)@ == old(self)@.after_rollback(id, was_first),
    {
        self.remove_source(id);
        proof {
            use_type_invariant(&*self);
        }
        let close = was_first && self.snapshot.len() == 0 && self.io_proc_open;
        if close {
            self.io_proc_open = false;
        }
        close
    }

    fn remove_routes_of(&mut self, bundle: &String)
        ensures
            final(self)@ == (RoutingView {
                routes: old(self)@.routes_without(bundle@),
                snapshot: old(self)@.snapshot,
                io_proc_open: old(self)@.io_proc_open,
            }),
    {
        proof {
            use_type_invariant(&*self);
        }
        let ghost old_routes = self.routes@;
        let ghost ov = self@.routes;
        let mut kept: Vec<Route> = Vec::new();
        let mut i: usize = 0;
        while i < self.routes.len()
            invariant
                i <= old_routes.len(),
                self.routes@ == old_routes,
                ov == old_routes.map_values(|r: Route| route_view(r)),
                kept@.map_values(|r: Route| route_view(r)) == ov.take(i as int).filter(
                    other_bundle(bundle@),
                ),
            decreases old_routes.len() - i,
        {
            proof {
                assert(ov.take(i + 1) =~= ov.take(i as int).push(ov[i as int]));
                ov.take(i as int).lemma_filter_push(ov[i as int], other_bundle(bundle@));
            }
            let r = &self.routes[i];
            if r.bundle_id != *bundle {
                let ghost before = kept@;
                let copy = Route { bundle_id: r.bundle_id.clone(), source: r.source };
                kept.push(copy);
                assert(kept@.map_values(|r: Route| route_view(r)) =~= before.map_values(
                    |r: Route| route_view(r),
                ).push(ov[i as int]));
            }
            i = i + 1;
        }
        assert(ov.take(ov.len() as int) =~= ov);
        proof {
            lemma_filter_keys_distinct(ov, other_bundle(bundle@), route_key());
        }
        self.routes = kept;
    }

    /// The capture started: records `bundle` as routed through source `id`,
    /// replacing an earlier route for the same application.
    pub fn activate(&mut self, bundle: String, id: u64)
        ensures
            final(self)@ == old(self)@.after_activate(bundle@, id),
    {
        self.remove_routes_of(&bundle);
        proof {
            use_type_invariant(&*self);
        }
        let ghost before = self@.routes;
        let ghost b = bundle@;
        let route = Route { bundle_id: bundle, source: id };
        proof {
            let base = old(self)@;
            assert(before == base.routes_without(b));
            assert forall|k: int| 0 <= k < before.len() implies before[k].0 != b by {
                base.routes.lemma_filter_pred(other_bundle(b), k);
            }
        }
        let mut routes: Vec<Route> = Vec::new();
        std::mem::swap(&mut routes, &mut self.routes);
        let ghost taken = routes@;
        routes.push(route);
        proof {
            assert(routes@.map_values(|r: Route| route_view(r)) =~= before.push((b, id)));
            assert(keys_distinct(before.push((b, id)), route_key())) by {
                assert forall|x: int, y: int| 0 <= x < y < before.len() + 1 implies before.push(
                    (b, id),
                )[x].0 != before.push((b, id))[y].0 by {
                    if y == before.len() {
                        assert(before.push((b, id))[x] == before[x]);
                    }
                }
            }
        }
        self.routes = routes;
    }

    /// Removes the route for `bundle` and its mix source. Returns the source
    /// that left and whether the host must close the output callback; does
    /// nothing when `bundle` is not routed.
    pub fn remove(&mut self, bundle: &String) -> (outcome: RemoveOutcome)
        ensures
            outcome.source == find_route(old(self)@.routes, bundle@),
            outcome.close_io_proc == old(self)@.remove_closes(bundle@),
            final(self)@ == old(self)@.after_remove(bundle@),
    {
        match self.route_source(bundle) {
            None => RemoveOutcome { source: None, close_io_proc: false },
            Some(id) => {
                self.remove_routes_of(bundle);
                self.remove_source(id);
                proof {
                    use_type_invariant(&*self);
                }
                let close = self.snapshot.len() == 0 && self.io_proc_open;
                if close {
                    self.io_proc_open = false;
                }
                RemoveOutcome { source: Some(id), close_io_proc: close }
            },
        }
    }
}

/// Filtering with a predicate every element meets changes nothing.
pub proof fn lemma_filter_all<A>(s: Seq<A>, p: spec_fn(A) -> bool)
    requires
        forall|i: int| 0 <= i < s.len() ==> p(#[trigger] s[i]),
    ensures
        s.filter(p) == s,
    decreases s.len(),
{
    reveal(Seq::filter);
    if s.len() > 0 {
        lemma_filter_all(s.drop_last(), p);
        assert(s.drop_last().push(s.last()) =~= s);
    }
}

/// A failed add closes the output callback only when that add opened it:
/// abandoning an add that was not the first route closes nothing and leaves
/// the table as it was; abandoning the first closes an open callback and
/// changes nothing else.
pub proof fn law_abandon_closes_only_fresh_callback(v: RoutingView, was_first: bool)
    ensures
        v.abandon_closes(was_first) ==> was_first,
        !v.abandon_closes(false),
        v.after_abandon(false) == v,
        v.after_abandon(was_first).routes == v.routes,
        v.after_abandon(was_first).snapshot == v.snapshot,
        was_first ==> !v.after_abandon(was_first).io_proc_open,
        was_first && v.io_proc_open ==> v.abandon_closes(was_first),
{
}

/// Well-formedness survives every step, provided a registered source is new.
pub proof fn law_steps_keep_wf(v: RoutingView, bundle: Seq<char>, id: u64, was_first: bool)
    requires
        v.wf(),
    ensures
        v.after_io_proc_opened().wf(),
        v.after_abandon(was_first).wf(),
        !v.snapshot.contains(id) ==> v.after_register(id).wf(),
        v.after_rollback(id, was_first).wf(),
        v.after_activate(bundle, id).wf(),
        v.after_remove(bundle).wf(),
{
    lemma_filter_no_duplicates(v.snapshot, other_source(id));
    lemma_filter_keys_distinct(v.routes, other_bundle(bundle), route_key());
    let kept = v.routes_without(bundle);
    assert forall|k: int| 0 <= k < kept.len() implies kept[k].0 != bundle by {
        v.routes.lemma_filter_pred(other_bundle(bundle), k);
    }
    let pushed = kept.push((bundle, id));
    assert forall|x: int, y: int| 0 <= x < y < pushed.len() implies pushed[x].0 != pushed[y].0 by {
        if y == kept.len() {
            assert(pushed[x] == kept[x]);
        }
    }
    match find_route(v.routes, bundle) {
        Some(s) => {
            lemma_filter_no_duplicates(v.snapshot, other_source(s));
        },
        None => {},
    }
}

/// Asking to remove an application that is not routed changes nothing and
/// closes nothing.
pub proof fn law_remove_unrouted_is_noop(v: RoutingView, bundle: Seq<char>)
    requires
        !v.has_route(bundle),
    ensures
        v.after_remove(bundle) == v,
        !v.remove_closes(bundle),
{
}

/// Once an application's capture has started it is routed, through the new
/// source, so a second add for it is refused.
pub proof fn law_activated_is_routed(v: RoutingView, bundle: Seq<char>, id: u64)
    requires
        v.wf(),
    ensures
        find_route(v.after_activate(bundle, id).routes, bundle) == Some(id),
        v.after_activate(bundle, id).has_route(bundle),
{
    law_steps_keep_wf(v, bundle, id, false);
    let routes = v.after_activate(bundle, id).routes;
    lemma_find_route_at(routes, bundle, routes.len() - 1);
}

/// Adding a route for an application that was not routed and then removing
/// it gives back the routes and the snapshot as they were. The output
/// callback stays open only if other sources remain.
pub proof fn law_add_then_remove(v: RoutingView, bundle: Seq<char>, id: u64)
    requires
        v.wf(),
        !v.has_route(bundle),
        !v.snapshot.contains(id),
    ensures
        ({
            let added = v.after_register(id).after_activate(bundle, id);
            let removed = added.after_remove(bundle);
            &&& find_route(added.routes, bundle) == Some(id)
            &&& removed.routes == v.routes
            &&& removed.snapshot == v.snapshot
            &&& added.remove_closes(bundle) == (v.io_proc_open && v.snapshot.len() == 0)
            &&& removed.io_proc_open == (v.io_proc_open && v.snapshot.len() > 0)
        }),
{
    let registered = v.after_register(id);
    law_steps_keep_wf(v, bundle, id, false);
    law_activated_is_routed(registered, bundle, id);
    let added = registered.after_activate(bundle, id);
    lemma_find_route_none(v.routes, bundle);
    lemma_filter_all(v.routes, other_bundle(bundle));
    assert(added.routes == v.routes.push((bundle, id)));
    v.routes.lemma_filter_push((bundle, id), other_bundle(bundle));
    lemma_filter_all(v.snapshot, other_source(id));
    v.snapshot.lemma_filter_push(id, other_source(id));
}

/// Withdrawing a source right after registering it gives back the snapshot
/// as it was; the output callback closes only if this add opened it and no
/// other source remains.
pub proof fn law_rollback_undoes_register(v: RoutingView, id: u64, was_first: bool)
    requires
        !v.snapshot.contains(id),
    ensures
        v.after_register(id).after_rollback(id, was_first).snapshot == v.snapshot,
        v.after_register(id).after_rollback(id, was_first).routes == v.routes,
        v.after_register(id).rollback_closes(id, was_first) == (was_first && v.io_proc_open
            && v.snapshot.len() == 0),
{
    lemma_filter_all(v.snapshot, other_source(id));
    v.snapshot.lemma_filter_push(id, other_source(id));
}

/// The output callback is closed only when no mix source is left.
pub proof fn law_close_only_when_empty(v: RoutingView, bundle: Seq<char>, id: u64, was_first: bool)
    ensures
        v.remove_closes(bundle) ==> v.after_remove(bundle).snapshot.len() == 0
            && !v.after_remove(bundle).io_proc_open,
        v.rollback_closes(id, was_first) ==> v.after_rollback(id, was_first).snapshot.len() == 0
            && !v.after_rollback(id, was_first).io_proc_open,
{
}

/// After removal the application is no longer routed, its source is out of
/// the snapshot, and every other route and source stays.
pub proof fn law_remove_forgets(v: RoutingView, bundle: Seq<char>)
    requires
        v.wf(),
    ensures
        !v.after_remove(bundle).has_route(bundle),
        forall|r: RouteView| #[trigger]
            v.routes.contains(r) && r.0 != bundle ==> v.after_remove(bundle).routes.contains(r),
        v.has_route(bundle) ==> !v.after_remove(bundle).snapshot.contains(
            find_route(v.routes, bundle)->0,
        ),
        v.has_route(bundle) ==> forall|x: u64| #[trigger]
            v.snapshot.contains(x) && x != find_route(v.routes, bundle)->0
                ==> v.after_remove(bundle).snapshot.contains(x),
{
    let after = v.after_remove(bundle);
    if v.has_route(bundle) {
        let s = find_route(v.routes, bundle)->0;
        let kept = v.routes_without(bundle);
        assert forall|k: int| 0 <= k < kept.len() implies #[trigger] kept[k].0 != bundle by {
            v.routes.lemma_filter_pred(other_bundle(bundle), k);
        }
        lemma_find_route_none(kept, bundle);
        assert forall|r: RouteView| #[trigger]
            v.routes.contains(r) && r.0 != bundle implies after.routes.contains(r) by {
            let k = choose|k: int| 0 <= k < v.routes.len() && v.routes[k] == r;
            v.routes.lemma_filter_contains(other_bundle(bundle), k);
        }
        let snap = v.snapshot_without(s);
        assert(!snap.contains(s)) by {
            if snap.contains(s) {
                let k = choose|k: int| 0 <= k < snap.len() && snap[k] == s;
                v.snapshot.lemma_filter_pred(other_source(s), k);
            }
        }
        assert forall|x: u64| #[trigger]
            v.snapshot.contains(x) && x != s implies after.snapshot.contains(x) by {
            let k = choose|k: int| 0 <= k < v.snapshot.len() && v.snapshot[k] == x;
            v.snapshot.lemma_filter_contains(other_source(s), k);
        }
    }
}

} // verus!
