//! Laws of the registry of instances and of the requests that change it.

use crate::error::TaskError;
use crate::manager::{
    lemma_wf_addresses, request_header, with_instance, with_instances, without_instance,
    without_instances, Registry, TaskFlowView, TaskManager, TaskManagerReqView, TaskManagerView,
};
use crate::model::{AppInstanceKeyView, AppKeyView};
use vstd::prelude::*;

verus! {

/// No application lists an address twice.
pub open spec fn addresses_distinct(registry: Registry) -> bool {
    forall|app: AppKeyView| #[trigger]
        registry.dom().contains(app) ==> registry[app].no_duplicates()
}

/// An address that has been added is listed once, and every other address of the application
/// stands where it stood.
pub proof fn added_instance_is_listed(registry: Registry, app: AppKeyView, addr: Seq<char>)
    requires
        addresses_distinct(registry),
    ensures
        with_instance(registry, app, addr).dom().contains(app),
        with_instance(registry, app, addr)[app].contains(addr),
        addresses_distinct(with_instance(registry, app, addr)),
        registry.dom().contains(app) ==> registry[app].is_prefix_of(
            with_instance(registry, app, addr)[app],
        ),
{
    let after = with_instance(registry, app, addr);
    assert(after[app].last() == addr || registry[app].contains(addr));
    assert(after[app].contains(addr));
    if registry.dom().contains(app) {
        assert(registry[app].no_duplicates());
        assert(registry[app] =~= after[app].take(registry[app].len() as int));
    }
    assert(after[app].no_duplicates());
}

/// An address that has been removed is not listed any more; the others still are, in the order in
/// which they were.
pub proof fn removed_instance_is_not_listed(registry: Registry, app: AppKeyView, addr: Seq<char>)
    requires
        addresses_distinct(registry),
        registry.dom().contains(app),
    ensures
        without_instance(registry, app, addr).dom() == registry.dom(),
        without_instance(registry, app, addr)[app] == registry[app].filter(
            |a: Seq<char>| a != addr,
        ),
        !without_instance(registry, app, addr)[app].contains(addr),
        addresses_distinct(without_instance(registry, app, addr)),
{
    lemma_remove_value_is_filter(registry[app], addr);
    assert(without_instance(registry, app, addr).dom() =~= registry.dom());
}

/// Removing a value from a sequence without repeats filters it out.
pub(crate) proof fn lemma_remove_value_is_filter(s: Seq<Seq<char>>, addr: Seq<char>)
    requires
        s.no_duplicates(),
    ensures
        s.remove_value(addr) == s.filter(|a: Seq<char>| a != addr),
        !s.remove_value(addr).contains(addr),
        s.remove_value(addr).no_duplicates(),
    decreases s.len(),
{
    reveal(Seq::filter);
    let keep = |a: Seq<char>| a != addr;
    s.index_of_first_ensures(addr);
    if s.len() == 0 {
        assert(s.remove_value(addr) =~= s.filter(keep));
    } else {
        let init = s.drop_last();
        assert(init.no_duplicates());
        lemma_remove_value_is_filter(init, addr);
        init.index_of_first_ensures(addr);
        if s.last() == addr {
            assert(!init.contains(addr));
            assert(s.remove_value(addr) =~= init);
            assert(init.remove_value(addr) =~= init);
        } else if init.contains(addr) {
            let i = init.index_of_first(addr).unwrap();
            let j = s.index_of_first(addr).unwrap();
            assert(init[i] == addr && s[i] == addr && s[j] == addr);
            assert(i == j);
            assert(s.remove_value(addr) =~= init.remove_value(addr).push(s.last()));
        } else {
            if s.contains(addr) {
                let k = choose|k: int| 0 <= k < s.len() && s[k] == addr;
                assert(init[k] == addr);
            }
            assert(s.remove_value(addr) =~= init.remove_value(addr).push(s.last()));
        }
    }
}

/// Adding and removing an instance of one application leaves every other application as it was.
pub proof fn other_applications_are_untouched(
    registry: Registry,
    app: AppKeyView,
    addr: Seq<char>,
    other: AppKeyView,
)
    requires
        other != app,
    ensures
        with_instance(registry, app, addr).dom().contains(other) == registry.dom().contains(other),
        with_instance(registry, app, addr)[other] == registry[other],
        without_instance(registry, app, addr).dom().contains(other) == registry.dom().contains(
            other,
        ),
        without_instance(registry, app, addr)[other] == registry[other],
{
}

/// Adding an instance again changes nothing.
pub proof fn adding_twice_is_adding_once(registry: Registry, app: AppKeyView, addr: Seq<char>)
    ensures
        with_instance(with_instance(registry, app, addr), app, addr) == with_instance(
            registry,
            app,
            addr,
        ),
{
    let once = with_instance(registry, app, addr);
    assert(once[app].last() == addr || registry[app].contains(addr));
    assert(once[app].contains(addr));
    assert(with_instance(once, app, addr) =~= once);
}

/// Removing an instance again changes nothing.
pub proof fn removing_twice_is_removing_once(registry: Registry, app: AppKeyView, addr: Seq<char>)
    requires
        addresses_distinct(registry),
    ensures
        without_instance(without_instance(registry, app, addr), app, addr) == without_instance(
            registry,
            app,
            addr,
        ),
{
    if registry.dom().contains(app) {
        let once = without_instance(registry, app, addr);
        lemma_remove_value_is_filter(registry[app], addr);
        once[app].index_of_first_ensures(addr);
        assert(without_instance(once, app, addr) =~= once);
    }
}

/// Removing undoes adding an address that was not listed: a known application is as it was before,
/// and one that was unknown is left without instances.
pub proof fn removing_undoes_adding(registry: Registry, app: AppKeyView, addr: Seq<char>)
    requires
        registry.dom().contains(app) ==> !registry[app].contains(addr),
    ensures
        without_instance(with_instance(registry, app, addr), app, addr) == if registry.dom(
        ).contains(app) {
            registry
        } else {
            registry.insert(app, Seq::empty())
        },
{
    let added = with_instance(registry, app, addr);
    added[app].index_of_first_ensures(addr);
    let before = if registry.dom().contains(app) {
        registry[app]
    } else {
        Seq::empty()
    };
    assert(added[app] =~= before.push(addr));
    assert(added[app].contains(addr)) by {
        assert(added[app].last() == addr);
    }
    let i = added[app].index_of_first(addr).unwrap();
    assert(i == before.len()) by {
        if i < before.len() {
            assert(before[i] == addr);
            assert(before.contains(addr));
        }
    }
    assert(added[app].remove(i) =~= before);
    assert(without_instance(added, app, addr) =~= registry.insert(app, before));
    if registry.dom().contains(app) {
        assert(registry.insert(app, before) =~= registry);
    }
}

/// Requests that concern different applications can be handled in either order.
pub proof fn applications_are_independent(
    registry: Registry,
    app: AppKeyView,
    addr: Seq<char>,
    other: AppKeyView,
    other_addr: Seq<char>,
)
    requires
        app != other,
    ensures
        with_instance(with_instance(registry, app, addr), other, other_addr) == with_instance(
            with_instance(registry, other, other_addr),
            app,
            addr,
        ),
        without_instance(with_instance(registry, app, addr), other, other_addr) == with_instance(
            without_instance(registry, other, other_addr),
            app,
            addr,
        ),
        without_instance(without_instance(registry, app, addr), other, other_addr)
            == without_instance(without_instance(registry, other, other_addr), app, addr),
{
    assert(with_instance(with_instance(registry, app, addr), other, other_addr) =~= with_instance(
        with_instance(registry, other, other_addr),
        app,
        addr,
    ));
    assert(without_instance(with_instance(registry, app, addr), other, other_addr)
        =~= with_instance(without_instance(registry, other, other_addr), app, addr));
    assert(without_instance(without_instance(registry, app, addr), other, other_addr)
        =~= without_instance(without_instance(registry, other, other_addr), app, addr));
}

/// A batch is handled as if each of its instances had come on its own, in order.
pub proof fn a_batch_is_its_parts(
    manager: TaskManagerView,
    keys: Seq<AppInstanceKeyView>,
    more: Seq<AppInstanceKeyView>,
    key: AppInstanceKeyView,
)
    ensures
        manager.after(TaskManagerReqView::AddAppInstances(seq![key])) == manager.after(
            TaskManagerReqView::AddAppInstance(key.app, key.addr),
        ),
        manager.after(TaskManagerReqView::RemoveAppInstances(seq![key])) == manager.after(
            TaskManagerReqView::RemoveAppInstance(key.app, key.addr),
        ),
        manager.after(TaskManagerReqView::AddAppInstances(keys + more)) == manager.after(
            TaskManagerReqView::AddAppInstances(keys),
        ).after(TaskManagerReqView::AddAppInstances(more)),
        manager.after(TaskManagerReqView::RemoveAppInstances(keys + more)) == manager.after(
            TaskManagerReqView::RemoveAppInstances(keys),
        ).after(TaskManagerReqView::RemoveAppInstances(more)),
{
    assert(seq![key].drop_last() =~= Seq::<AppInstanceKeyView>::empty());
    reveal_with_fuel(with_instances, 2);
    reveal_with_fuel(without_instances, 2);
    lemma_batches_compose(manager.registry, keys, more);
}

proof fn lemma_batches_compose(
    registry: Registry,
    keys: Seq<AppInstanceKeyView>,
    more: Seq<AppInstanceKeyView>,
)
    ensures
        with_instances(registry, keys + more) == with_instances(
            with_instances(registry, keys),
            more,
        ),
        without_instances(registry, keys + more) == without_instances(
            without_instances(registry, keys),
            more,
        ),
    decreases more.len(),
{
    if more.len() == 0 {
        assert(keys + more =~= keys);
    } else {
        lemma_batches_compose(registry, keys, more.drop_last());
        assert((keys + more).drop_last() =~= keys + more.drop_last());
    }
}

/// A request that triggers tasks, refused or not, changes nothing in the manager; one that names
/// instances is never refused and starts nothing. No request changes the header or the
/// collaborators.
pub proof fn triggering_changes_nothing(
    manager: TaskManagerView,
    msg: TaskManagerReqView,
)
    ensures
        msg is TriggerTask || msg is TriggerTaskList ==> manager.after(msg) == manager,
        !(msg is TriggerTask || msg is TriggerTaskList) ==> manager.answer(msg) == Ok::<
            TaskFlowView,
            TaskError,
        >(TaskFlowView::Nothing),
        manager.after(msg).header == manager.header,
        manager.after(msg).sequence_manager == manager.sequence_manager,
        manager.after(msg).job_manager == manager.job_manager,
        manager.after(msg).raft_request_route == manager.raft_request_route,
{
}

/// Whether a request adds an instance of application `app`.
pub open spec fn adds_to(msg: TaskManagerReqView, app: AppKeyView) -> bool {
    match msg {
        TaskManagerReqView::AddAppInstance(a, _) => a == app,
        TaskManagerReqView::AddAppInstances(keys) => names(keys, app),
        _ => false,
    }
}

/// Whether one of `keys` is an instance of application `app`.
pub open spec fn names(keys: Seq<AppInstanceKeyView>, app: AppKeyView) -> bool {
    exists|k: int| 0 <= k < keys.len() && (#[trigger] keys[k]).app == app
}

/// After any request an application is known just where it was known before or the request added
/// an instance of it: a known application stays known, and new ones come from additions only.
pub proof fn applications_stay_known(
    manager: TaskManagerView,
    msg: TaskManagerReqView,
    app: AppKeyView,
)
    ensures
        manager.after(msg).registry.dom().contains(app) <==> manager.registry.dom().contains(app)
            || adds_to(msg, app),
{
    match msg {
        TaskManagerReqView::AddAppInstances(keys) => {
            lemma_known_after_adding(manager.registry, keys, app);
        },
        TaskManagerReqView::RemoveAppInstances(keys) => {
            lemma_known_after_removing(manager.registry, keys, app);
        },
        _ => {},
    }
}

proof fn lemma_known_after_adding(
    registry: Registry,
    keys: Seq<AppInstanceKeyView>,
    app: AppKeyView,
)
    ensures
        with_instances(registry, keys).dom().contains(app) <==> registry.dom().contains(app)
            || names(keys, app),
    decreases keys.len(),
{
    if keys.len() > 0 {
        let init = keys.drop_last();
        lemma_known_after_adding(registry, init, app);
        if names(init, app) {
            let k = choose|k: int| 0 <= k < init.len() && (#[trigger] init[k]).app == app;
            assert(keys[k].app == app);
        }
        if keys.last().app == app {
            assert(keys[keys.len() - 1].app == app);
        } else if names(keys, app) {
            let k = choose|k: int| 0 <= k < keys.len() && (#[trigger] keys[k]).app == app;
            assert(init[k].app == app);
        }
    }
}

proof fn lemma_known_after_removing(
    registry: Registry,
    keys: Seq<AppInstanceKeyView>,
    app: AppKeyView,
)
    ensures
        without_instances(registry, keys).dom().contains(app) <==> registry.dom().contains(app),
    decreases keys.len(),
{
    if keys.len() > 0 {
        lemma_known_after_removing(registry, keys.drop_last(), app);
    }
}

/// Whether application `app` lists an instance at `addr`.
pub open spec fn listed(registry: Registry, app: AppKeyView, addr: Seq<char>) -> bool {
    registry.dom().contains(app) && registry[app].contains(addr)
}

/// Whether one of `keys` is the instance of application `app` at `addr`.
pub open spec fn among(keys: Seq<AppInstanceKeyView>, app: AppKeyView, addr: Seq<char>) -> bool {
    exists|k: int|
        0 <= k < keys.len() && (#[trigger] keys[k]).app == app && keys[k].addr == addr
}

/// Whether a request adds the instance of application `app` at `addr`.
pub open spec fn adds(msg: TaskManagerReqView, app: AppKeyView, addr: Seq<char>) -> bool {
    match msg {
        TaskManagerReqView::AddAppInstance(a, x) => a == app && x == addr,
        TaskManagerReqView::AddAppInstances(keys) => among(keys, app, addr),
        _ => false,
    }
}

/// Whether a request removes the instance of application `app` at `addr`.
pub open spec fn removes(msg: TaskManagerReqView, app: AppKeyView, addr: Seq<char>) -> bool {
    match msg {
        TaskManagerReqView::RemoveAppInstance(a, x) => a == app && x == addr,
        TaskManagerReqView::RemoveAppInstances(keys) => among(keys, app, addr),
        _ => false,
    }
}

/// After any request an address is listed for an application just where it was listed before or
/// the request adds it to that application, and the request does not remove it from there. No
/// address comes to be listed twice.
pub proof fn addresses_come_and_go_as_named(
    manager: TaskManagerView,
    msg: TaskManagerReqView,
    app: AppKeyView,
    addr: Seq<char>,
)
    requires
        addresses_distinct(manager.registry),
    ensures
        listed(manager.after(msg).registry, app, addr) <==> (listed(manager.registry, app, addr)
            || adds(msg, app, addr)) && !removes(msg, app, addr),
        addresses_distinct(manager.after(msg).registry),
{
    match msg {
        TaskManagerReqView::AddAppInstance(a, x) => {
            lemma_listed_after_one(manager.registry, a, x, app, addr);
            added_instance_is_listed(manager.registry, a, x);
        },
        TaskManagerReqView::AddAppInstances(keys) => {
            lemma_listed_after_adding(manager.registry, keys, app, addr);
            lemma_distinct_after_adding(manager.registry, keys);
        },
        TaskManagerReqView::RemoveAppInstance(a, x) => {
            lemma_one_is_filtered(manager.registry, a, x, app);
            if manager.registry.dom().contains(app) && a == app {
                lemma_filter_contains(manager.registry[app], |b: Seq<char>| b != x, addr);
            }
        },
        TaskManagerReqView::RemoveAppInstances(keys) => {
            lemma_batch_is_filtered(manager.registry, keys, app);
            if manager.registry.dom().contains(app) {
                lemma_filter_contains(
                    manager.registry[app],
                    |b: Seq<char>| !among(keys, app, b),
                    addr,
                );
            }
        },
        _ => {},
    }
}

/// Adding never moves or drops an address that was listed before: what an application listed is
/// the beginning of what it lists afterwards. Removing leaves the other addresses in the order in
/// which they were.
pub proof fn listed_addresses_keep_their_order(
    manager: TaskManagerView,
    msg: TaskManagerReqView,
    app: AppKeyView,
)
    requires
        addresses_distinct(manager.registry),
        manager.registry.dom().contains(app),
    ensures
        msg is AddAppInstance || msg is AddAppInstances ==> manager.registry[app].is_prefix_of(
            manager.after(msg).registry[app],
        ),
        !(msg is AddAppInstance || msg is AddAppInstances) ==> manager.after(msg).registry[app]
            == manager.registry[app].filter(|addr: Seq<char>| !removes(msg, app, addr)),
{
    let kept = |addr: Seq<char>| !removes(msg, app, addr);
    let before = manager.registry[app];
    match msg {
        TaskManagerReqView::AddAppInstance(a, x) => {
            added_instance_is_listed(manager.registry, a, x);
            assert(before =~= before.take(before.len() as int));
        },
        TaskManagerReqView::AddAppInstances(keys) => {
            lemma_listed_after_adding(manager.registry, keys, app, Seq::empty());
        },
        TaskManagerReqView::RemoveAppInstance(a, x) => {
            lemma_one_is_filtered(manager.registry, a, x, app);
            if a == app {
                lemma_filter_both(before, |b: Seq<char>| true, |b: Seq<char>| b != x, kept);
                lemma_filter_all(before, |b: Seq<char>| true);
            } else {
                lemma_filter_all(before, kept);
            }
        },
        TaskManagerReqView::RemoveAppInstances(keys) => {
            lemma_batch_is_filtered(manager.registry, keys, app);
            lemma_filter_both(
                before,
                |b: Seq<char>| true,
                |b: Seq<char>| !among(keys, app, b),
                kept,
            );
            lemma_filter_all(before, |b: Seq<char>| true);
        },
        _ => {
            lemma_filter_all(before, kept);
        },
    }
}

/// An instance that is added comes last among those of its application, unless its address is
/// listed already, when nothing changes; no other application changes. One request to the manager
/// and the method of the same name do the same.
pub proof fn an_added_address_comes_last(
    manager: TaskManagerView,
    app: AppKeyView,
    addr: Seq<char>,
)
    ensures
        ({
            let after = manager.after(TaskManagerReqView::AddAppInstance(app, addr)).registry;
            &&& with_instance(manager.registry, app, addr) == after
            &&& listed(manager.registry, app, addr) ==> after == manager.registry
            &&& manager.registry.dom().contains(app) && !listed(manager.registry, app, addr)
                ==> after == manager.registry.insert(app, manager.registry[app].push(addr))
            &&& !manager.registry.dom().contains(app) ==> after == manager.registry.insert(
                app,
                seq![addr],
            )
        }),
{
    let after = manager.after(TaskManagerReqView::AddAppInstance(app, addr)).registry;
    if listed(manager.registry, app, addr) {
        assert(after =~= manager.registry);
    }
}

/// Removing an address by a request or by the method of the same name takes just that address out
/// of what its application lists; an unknown application stays unknown.
pub proof fn a_removed_address_alone_goes(
    manager: TaskManagerView,
    app: AppKeyView,
    addr: Seq<char>,
)
    requires
        addresses_distinct(manager.registry),
    ensures
        ({
            let after = manager.after(TaskManagerReqView::RemoveAppInstance(app, addr)).registry;
            &&& without_instance(manager.registry, app, addr) == after
            &&& manager.registry.dom().contains(app) ==> after == manager.registry.insert(
                app,
                manager.registry[app].filter(|a: Seq<char>| a != addr),
            )
            &&& !manager.registry.dom().contains(app) ==> after == manager.registry
        }),
{
    if manager.registry.dom().contains(app) {
        lemma_remove_value_is_filter(manager.registry[app], addr);
    }
}

proof fn lemma_contains_push(s: Seq<Seq<char>>, last: Seq<char>, addr: Seq<char>)
    ensures
        s.push(last).contains(addr) <==> s.contains(addr) || addr == last,
{
    let more = s.push(last);
    if s.contains(addr) {
        let k = choose|k: int| 0 <= k < s.len() && s[k] == addr;
        assert(more[k] == addr);
    }
    assert(more[s.len() as int] == last);
    if more.contains(addr) && addr != last {
        let k = choose|k: int| 0 <= k < more.len() && more[k] == addr;
        assert(s[k] == addr);
    }
}

proof fn lemma_listed_after_one(
    registry: Registry,
    a: AppKeyView,
    x: Seq<char>,
    app: AppKeyView,
    addr: Seq<char>,
)
    ensures
        listed(with_instance(registry, a, x), app, addr) <==> listed(registry, app, addr) || (a
            == app && x == addr),
        registry.dom().contains(app) ==> registry[app].is_prefix_of(
            with_instance(registry, a, x)[app],
        ),
        registry.dom().contains(app) ==> with_instance(registry, a, x).dom().contains(app),
{
    let after = with_instance(registry, a, x);
    if a == app {
        if registry.dom().contains(app) {
            lemma_contains_push(registry[app], x, addr);
            assert(registry[app] =~= after[app].take(registry[app].len() as int));
        } else {
            lemma_contains_push(Seq::empty(), x, addr);
            assert(after[app] =~= Seq::<Seq<char>>::empty().push(x));
        }
    } else if registry.dom().contains(app) {
        assert(registry[app] =~= after[app].take(registry[app].len() as int));
    }
}

proof fn lemma_among_last(keys: Seq<AppInstanceKeyView>, app: AppKeyView, addr: Seq<char>)
    requires
        keys.len() > 0,
    ensures
        among(keys, app, addr) <==> among(keys.drop_last(), app, addr) || (keys.last().app == app
            && keys.last().addr == addr),
{
    let init = keys.drop_last();
    if among(init, app, addr) {
        let k = choose|k: int|
            0 <= k < init.len() && (#[trigger] init[k]).app == app && init[k].addr == addr;
        assert(keys[k] == init[k]);
    }
    if keys.last().app == app && keys.last().addr == addr {
        assert(keys[keys.len() - 1].app == app);
    } else if among(keys, app, addr) {
        let k = choose|k: int|
            0 <= k < keys.len() && (#[trigger] keys[k]).app == app && keys[k].addr == addr;
        assert(init[k] == keys[k]);
    }
}

proof fn lemma_listed_after_adding(
    registry: Registry,
    keys: Seq<AppInstanceKeyView>,
    app: AppKeyView,
    addr: Seq<char>,
)
    ensures
        listed(with_instances(registry, keys), app, addr) <==> listed(registry, app, addr)
            || among(keys, app, addr),
        registry.dom().contains(app) ==> registry[app].is_prefix_of(
            with_instances(registry, keys)[app],
        ) && with_instances(registry, keys).dom().contains(app),
    decreases keys.len(),
{
    if keys.len() > 0 {
        let init = keys.drop_last();
        lemma_listed_after_adding(registry, init, app, addr);
        lemma_among_last(keys, app, addr);
        lemma_listed_after_one(
            with_instances(registry, init),
            keys.last().app,
            keys.last().addr,
            app,
            addr,
        );
    } else if registry.dom().contains(app) {
        assert(registry[app] =~= registry[app].take(registry[app].len() as int));
    }
}

proof fn lemma_distinct_after_adding(registry: Registry, keys: Seq<AppInstanceKeyView>)
    requires
        addresses_distinct(registry),
    ensures
        addresses_distinct(with_instances(registry, keys)),
    decreases keys.len(),
{
    if keys.len() > 0 {
        let init = keys.drop_last();
        lemma_distinct_after_adding(registry, init);
        added_instance_is_listed(
            with_instances(registry, init),
            keys.last().app,
            keys.last().addr,
        );
    }
}

proof fn lemma_filter_contains(s: Seq<Seq<char>>, keep: spec_fn(Seq<char>) -> bool, addr: Seq<char>)
    ensures
        s.filter(keep).contains(addr) <==> s.contains(addr) && keep(addr),
    decreases s.len(),
{
    reveal(Seq::filter);
    if s.len() > 0 {
        let init = s.drop_last();
        lemma_filter_contains(init, keep, addr);
        lemma_contains_push(init, s.last(), addr);
        assert(init.push(s.last()) =~= s);
        lemma_contains_push(init.filter(keep), s.last(), addr);
    }
}

proof fn lemma_filter_both(
    s: Seq<Seq<char>>,
    first: spec_fn(Seq<char>) -> bool,
    second: spec_fn(Seq<char>) -> bool,
    both: spec_fn(Seq<char>) -> bool,
)
    requires
        forall|a: Seq<char>| #[trigger] both(a) <==> first(a) && second(a),
    ensures
        s.filter(first).filter(second) == s.filter(both),
    decreases s.len(),
{
    reveal(Seq::filter);
    if s.len() > 0 {
        let init = s.drop_last();
        lemma_filter_both(init, first, second, both);
        assert(both(s.last()) <==> first(s.last()) && second(s.last()));
        assert(init.filter(first).push(s.last()).drop_last() =~= init.filter(first));
    }
}

proof fn lemma_filter_all(s: Seq<Seq<char>>, keep: spec_fn(Seq<char>) -> bool)
    requires
        forall|a: Seq<char>| #[trigger] keep(a),
    ensures
        s.filter(keep) == s,
    decreases s.len(),
{
    reveal(Seq::filter);
    if s.len() > 0 {
        lemma_filter_all(s.drop_last(), keep);
        assert(keep(s.last()));
        assert(s.drop_last().push(s.last()) =~= s);
    }
}

proof fn lemma_one_is_filtered(registry: Registry, a: AppKeyView, x: Seq<char>, app: AppKeyView)
    requires
        addresses_distinct(registry),
    ensures
        addresses_distinct(without_instance(registry, a, x)),
        without_instance(registry, a, x).dom() == registry.dom(),
        registry.dom().contains(app) ==> without_instance(registry, a, x)[app] == if a == app {
            registry[app].filter(|b: Seq<char>| b != x)
        } else {
            registry[app]
        },
{
    if registry.dom().contains(a) {
        removed_instance_is_not_listed(registry, a, x);
    }
}

proof fn lemma_batch_is_filtered(
    registry: Registry,
    keys: Seq<AppInstanceKeyView>,
    app: AppKeyView,
)
    requires
        addresses_distinct(registry),
    ensures
        addresses_distinct(without_instances(registry, keys)),
        without_instances(registry, keys).dom() == registry.dom(),
        registry.dom().contains(app) ==> without_instances(registry, keys)[app]
            == registry[app].filter(|b: Seq<char>| !among(keys, app, b)),
    decreases keys.len(),
{
    let kept = |b: Seq<char>| !among(keys, app, b);
    if keys.len() == 0 {
        if registry.dom().contains(app) {
            lemma_filter_all(registry[app], kept);
        }
    } else {
        let init = keys.drop_last();
        let x = keys.last().addr;
        lemma_batch_is_filtered(registry, init, app);
        lemma_one_is_filtered(without_instances(registry, init), keys.last().app, x, app);
        if registry.dom().contains(app) {
            let before = |b: Seq<char>| !among(init, app, b);
            assert forall|b: Seq<char>| #[trigger] kept(b) <==> before(b) && (keys.last().app == app
                ==> b != x) by {
                lemma_among_last(keys, app, b);
            }
            if keys.last().app == app {
                lemma_filter_both(registry[app], before, |b: Seq<char>| b != x, kept);
            } else {
                lemma_filter_both(registry[app], before, |b: Seq<char>| true, kept);
                lemma_filter_all(registry[app].filter(before), |b: Seq<char>| true);
            }
        }
    }
}

/// Every address list of a well-formed manager is without repeats.
pub proof fn managers_list_no_address_twice(manager: TaskManager)
    requires
        manager.wf(),
    ensures
        addresses_distinct(manager@.registry),
{
    lemma_wf_addresses(manager);
}

/// No name occurs twice in the header, and the token is in it just where it is not empty.
pub proof fn header_names_are_distinct(token: Seq<char>, app_version: Seq<char>)
    ensures
        forall|i: int, j: int|
            0 <= i < j < request_header(token, app_version).len() ==> #[trigger] request_header(
                token,
                app_version,
            )[i].0 != #[trigger] request_header(token, app_version)[j].0,
        token.len() > 0 <==> exists|i: int|
            0 <= i < request_header(token, app_version).len() && #[trigger] request_header(
                token,
                app_version,
            )[i].0 == "XXL-JOB-ACCESS-TOKEN"@,
{
    reveal_strlit("Content-Type");
    reveal_strlit("User-Agent");
    reveal_strlit("XXL-JOB-ACCESS-TOKEN");
    assert("Content-Type"@.len() == 12);
    assert("User-Agent"@.len() == 10);
    assert("XXL-JOB-ACCESS-TOKEN"@.len() == 20);
    let header = request_header(token, app_version);
    assert(header[0].0 == "Content-Type"@);
    assert(header[1].0 == "User-Agent"@);
    if token.len() > 0 {
        assert(header[2].0 == "XXL-JOB-ACCESS-TOKEN"@);
    }
}

} // verus!
