//! The instances of one application.

use crate::model::{AppKey, AppKeyView};
use crate::shared::{lemma_views_push, same_text, views};
use std::sync::Arc;
use vstd::prelude::*;

verus! {

/// The addresses with `addr` among them: last, unless it was there before.
pub open spec fn with_addr(addrs: Seq<Seq<char>>, addr: Seq<char>) -> Seq<Seq<char>> {
    if addrs.contains(addr) {
        addrs
    } else {
        addrs.push(addr)
    }
}

/// The instances of one application, by address.
pub struct AppInstanceStateGroup {
    pub app_key: AppKey,
    /// The addresses, in the order in which they were added.
    pub instance_keys: Vec<Arc<String>>,
}

/// The contents of an [`AppInstanceStateGroup`].
#[verifier::ext_equal]
pub struct GroupView {
    pub app: AppKeyView,
    pub instance_keys: Seq<Seq<char>>,
}

impl View for AppInstanceStateGroup {
    type V = GroupView;

    open spec fn view(&self) -> GroupView {
        GroupView { app: self.app_key@, instance_keys: views(self.instance_keys@) }
    }
}

impl AppInstanceStateGroup {
    /// No address occurs twice.
    pub open spec fn wf(self) -> bool {
        self@.instance_keys.no_duplicates()
    }

    /// A group without instances.
    pub fn new(app_key: AppKey) -> (group: Self)
        ensures
            group.wf(),
            group@ == (GroupView { app: app_key@, instance_keys: Seq::empty() }),
    {
        AppInstanceStateGroup { app_key, instance_keys: Vec::new() }
    }

    /// Where `instance_addr` stands among the addresses.
    fn position(&self, instance_addr: &Arc<String>) -> (position: Option<usize>)
        ensures
            match position {
                Some(i) => i < self.instance_keys.len() && self@.instance_keys[i as int]
                    == instance_addr@ && !self@.instance_keys.take(i as int).contains(
                    instance_addr@,
                ),
                None => !self@.instance_keys.contains(instance_addr@),
            },
    {
        for i in 0..self.instance_keys.len()
            invariant
                forall|j: int| 0 <= j < i ==> self@.instance_keys[j] != instance_addr@,
        {
            if same_text(&self.instance_keys[i], instance_addr) {
                return Some(i);
            }
        }
        None
    }

    /// Adds an instance.
    pub fn add_instance(&mut self, instance_addr: Arc<String>)
        requires
            old(self).wf(),
        ensures
            final(self).wf(),
            final(self)@ == (GroupView {
                instance_keys: with_addr(old(self)@.instance_keys, instance_addr@),
                ..old(self)@
            }),
    {
        broadcast use lemma_views_push;

        if self.position(&instance_addr).is_none() {
            self.instance_keys.push(instance_addr);
        }
    }

    /// Removes an instance, if it is there.
    pub fn remove_instance(&mut self, instance_addr: Arc<String>)
        requires
            old(self).wf(),
        ensures
            final(self).wf(),
            final(self)@ == (GroupView {
                instance_keys: old(self)@.instance_keys.remove_value(instance_addr@),
                ..old(self)@
            }),
    {
        proof {
            self@.instance_keys.index_of_first_ensures(instance_addr@);
        }
        if let Some(i) = self.position(&instance_addr) {
            let ghost before = self.instance_keys@;
            self.instance_keys.remove(i);
            assert(views(before.remove(i as int)) =~= views(before).remove(i as int));
        }
    }
}

} // verus!
