//! The backend pool: per-application lists of upstream endpoints, and the
//! map that selects one endpoint for each incoming request.

use vstd::prelude::*;
use crate::addr::{Addr, Ip, parse_ipv4, spec_parse_ipv4};
use vstd::utf8::encode_utf8;
use crate::backend::{Backend, BackendProtocol, ConnectionError, Connector};
use crate::rng::random_usize;

verus! {

/// One instance record of a configuration snapshot: an instance name, the
/// endpoint's address in printable form, and its port.
pub struct Instance {
    pub instance_id: String,
    pub ip_address: String,
    pub port: u16,
}

/// The endpoint a record describes, or `None` when its address text does
/// not parse.
pub open spec fn spec_instance_addr(inst: Instance) -> Option<Addr> {
    match spec_parse_ipv4(encode_utf8(inst.ip_address@)) {
        None => None,
        Some(ip) => Some(Addr { ip: Ip::V4(ip), port: inst.port }),
    }
}

/// The records a snapshot import keeps, in order: malformed addresses are
/// dropped, and a record whose address was already taken is dropped too.
pub open spec fn spec_accepted(instances: Seq<Instance>) -> Seq<(Seq<char>, Addr)>
    decreases instances.len(),
{
    if instances.len() == 0 {
        Seq::empty()
    } else {
        let prev = spec_accepted(instances.drop_last());
        match spec_instance_addr(instances.last()) {
            None => prev,
            Some(a) => if exists|k: int| 0 <= k < prev.len() && prev[k].1 == a {
                prev
            } else {
                prev.push((instances.last().instance_id@, a))
            },
        }
    }
}

pub proof fn lemma_accepted_len(instances: Seq<Instance>)
    ensures
        spec_accepted(instances).len() <= instances.len(),
    decreases instances.len(),
{
    if instances.len() > 0 {
        lemma_accepted_len(instances.drop_last());
    }
}

/// The ordered collection of backends of one application, with the next
/// sticky id to assign. No two entries share an address; ids are unique and
/// all below `next_id`, so an id is never assigned twice.
pub struct BackendList {
    pub instances: Vec<Backend>,
    pub next_id: u32,
}

impl BackendList {
    /// The list's invariant: unique addresses, unique ids, every id below
    /// `next_id`.
    pub open spec fn wf(self) -> bool {
        &&& forall|i: int, j: int|
            0 <= i < j < self.instances@.len() ==> self.instances@[i].address
                != self.instances@[j].address
        &&& forall|i: int, j: int|
            0 <= i < j < self.instances@.len() ==> self.instances@[i].id != self.instances@[j].id
        &&& forall|i: int| 0 <= i < self.instances@.len() ==> self.instances@[i].id < self.next_id
    }

    /// True iff some entry has this address.
    pub open spec fn spec_has_addr(self, addr: Addr) -> bool {
        exists|i: int| 0 <= i < self.instances@.len() && self.instances@[i].address == addr
    }

    /// True iff some entry with this id is eligible for new traffic.
    pub open spec fn spec_has_eligible_id(self, id: u32) -> bool {
        exists|i: int|
            0 <= i < self.instances@.len() && self.instances@[i].id == id
                && self.instances@[i].spec_can_open()
    }

    /// True iff some entry is eligible for new traffic.
    pub open spec fn spec_has_eligible(self) -> bool {
        exists|i: int| 0 <= i < self.instances@.len() && self.instances@[i].spec_can_open()
    }

    /// What `add_instance` leaves behind: the address is present afterwards;
    /// a list that already had it is unchanged; otherwise one backend was
    /// appended, carrying the old `next_id` as its fresh id.
    pub open spec fn spec_add_post(pre: BackendList, post: BackendList, iid: Seq<char>, addr: Addr) -> bool {
        &&& post.wf()
        &&& post.spec_has_addr(addr)
        &&& (pre.spec_has_addr(addr) ==> post == pre)
        &&& (!pre.spec_has_addr(addr) ==> {
            &&& post.instances@.len() == pre.instances@.len() + 1
            &&& post.instances@.last().instance_id@ == iid
            &&& post.instances@.last().address == addr
            &&& post.instances@.last().id == pre.next_id
            &&& post.instances@.last().active_connections == 0
            &&& post.instances@.last().failures == 0
            &&& post.instances@ == pre.instances@.push(post.instances@.last())
            &&& post.next_id == pre.next_id + 1
        })
    }

    /// What `remove_instance` leaves behind: the address is gone, ids and
    /// order of the remaining entries are untouched.
    pub open spec fn spec_remove_post(pre: BackendList, post: BackendList, addr: Addr) -> bool {
        &&& post.wf()
        &&& post.next_id == pre.next_id
        &&& !post.spec_has_addr(addr)
        &&& (!pre.spec_has_addr(addr) ==> post == pre)
        &&& (pre.spec_has_addr(addr) ==> exists|i: int|
            0 <= i < pre.instances@.len() && pre.instances@[i].address == addr
                && post.instances@ == pre.instances@.remove(i))
    }

    /// `post` has the same endpoints as `pre` in the same order, with the
    /// same identities; only the connection and failure counters may differ.
    pub open spec fn spec_same_shape(pre: BackendList, post: BackendList) -> bool {
        &&& post.instances@.len() == pre.instances@.len()
        &&& post.next_id == pre.next_id
        &&& forall|i: int|
            0 <= i < pre.instances@.len() ==> post.instances@[i].address
                == pre.instances@[i].address && post.instances@[i].id == pre.instances@[i].id
                && post.instances@[i].instance_id == pre.instances@[i].instance_id
    }

    /// Ids are never reused: every id a well-formed list holds is below
    /// `next_id`, so the id the next addition will assign — `next_id` itself
    /// — differs from every id present. Together with each operation's
    /// clause that `next_id` never decreases, an id freed by a removal can
    /// never be assigned again.
    pub proof fn lemma_next_id_fresh(l: BackendList)
        requires
            l.wf(),
        ensures
            forall|i: int| 0 <= i < l.instances@.len() ==> l.instances@[i].id != l.next_id,
    {
    }

    pub proof fn lemma_same_shape_wf(pre: BackendList, post: BackendList)
        requires
            pre.wf(),
            BackendList::spec_same_shape(pre, post),
        ensures
            post.wf(),
    {
    }

    pub fn new() -> (r: BackendList)
        ensures
            r.wf(),
            r.instances@.len() == 0,
            r.next_id == 0,
    {
        BackendList { instances: Vec::new(), next_id: 0 }
    }

    /// The list a snapshot import builds: exactly the accepted records, in
    /// order, each backend's id its position.
    pub open spec fn spec_import_post(instances: Seq<Instance>, l: BackendList) -> bool {
        let acc = spec_accepted(instances);
        &&& l.wf()
        &&& l.instances@.len() == acc.len()
        &&& l.next_id == acc.len()
        &&& forall|k: int|
            0 <= k < acc.len() ==> {
                &&& (#[trigger] l.instances@[k]).instance_id@ == acc[k].0
                &&& l.instances@[k].address == acc[k].1
                &&& l.instances@[k].id == k
                &&& l.instances@[k].active_connections == 0
                &&& l.instances@[k].failures == 0
            }
    }

    /// Builds a list from a snapshot's records. A record whose address text
    /// does not parse is silently skipped; one whose address is already
    /// present is a no-op.
    pub fn import_configuration_state(instance_vec: &Vec<Instance>) -> (r: BackendList)
        requires
            instance_vec@.len() < u32::MAX,
        ensures
            BackendList::spec_import_post(instance_vec@, r),
    {
        let mut list = BackendList::new();
        proof {
            assert(instance_vec@.take(0) =~= Seq::<Instance>::empty());
        }
        let mut i: usize = 0;
        while i < instance_vec.len()
            invariant
                i <= instance_vec@.len(),
                instance_vec@.len() < u32::MAX,
                BackendList::spec_import_post(instance_vec@.take(i as int), list),
            decreases instance_vec@.len() - i,
        {
            let ghost prefix = instance_vec@.take(i as int);
            let ghost acc_pre = spec_accepted(prefix);
            proof {
                lemma_accepted_len(prefix);
                assert(instance_vec@.take(i + 1).drop_last() =~= prefix);
                assert(instance_vec@.take(i + 1).last() == instance_vec@[i as int]);
            }
            let inst = &instance_vec[i];
            let bytes = inst.ip_address.as_str().as_bytes();
            match parse_ipv4(bytes) {
                None => {
                    proof {
                        assert(spec_accepted(instance_vec@.take(i + 1)) == acc_pre);
                    }
                },
                Some(ip) => {
                    let a = Addr { ip: Ip::V4(ip), port: inst.port };
                    proof {
                        assert(spec_instance_addr(instance_vec@[i as int]) == Some(a));
                        if list.spec_has_addr(a) {
                            let idx = choose|idx: int|
                                0 <= idx < list.instances@.len() && list.instances@[idx].address
                                    == a;
                            assert(acc_pre[idx].1 == a);
                        }
                        if exists|k: int| 0 <= k < acc_pre.len() && acc_pre[k].1 == a {
                            let k = choose|k: int|
                                0 <= k < acc_pre.len() && acc_pre[k].1 == a;
                            assert(list.instances@[k].address == a);
                            assert(list.spec_has_addr(a));
                        }
                    }
                    list.add_instance(inst.instance_id.as_str(), &a);
                },
            }
            i = i + 1;
        }
        proof {
            assert(instance_vec@.take(instance_vec@.len() as int) =~= instance_vec@);
        }
        list
    }

    pub fn has_instance(&self, instance_address: &Addr) -> (r: bool)
        ensures
            r == self.spec_has_addr(*instance_address),
    {
        let mut i: usize = 0;
        while i < self.instances.len()
            invariant
                i <= self.instances@.len(),
                forall|k: int| 0 <= k < i ==> self.instances@[k].address != instance_address,
            decreases self.instances@.len() - i,
        {
            if self.instances[i].address == *instance_address {
                return true;
            }
            i = i + 1;
        }
        false
    }

    /// The index of the entry with this address, if any.
    pub fn find_instance(&self, instance_address: &Addr) -> (r: Option<usize>)
        ensures
            match r {
                Some(i) => i < self.instances@.len() && self.instances@[i as int].address
                    == instance_address,
                None => !self.spec_has_addr(*instance_address),
            },
    {
        let mut i: usize = 0;
        while i < self.instances.len()
            invariant
                i <= self.instances@.len(),
                forall|k: int| 0 <= k < i ==> self.instances@[k].address != instance_address,
            decreases self.instances@.len() - i,
        {
            if self.instances[i].address == *instance_address {
                return Some(i);
            }
            i = i + 1;
        }
        None
    }

    /// Appends a backend with a fresh id, unless the address is already
    /// present; in that case the list does not change. The fresh id is
    /// `next_id`, which the invariant keeps above every id ever assigned.
    pub fn add_instance(&mut self, instance_id: &str, instance_address: &Addr)
        requires
            old(self).wf(),
            old(self).next_id < u32::MAX,
        ensures
            BackendList::spec_add_post(*old(self), *final(self), instance_id@, *instance_address),
    {
        if self.find_instance(instance_address).is_none() {
            let backend = Backend::new(instance_id, *instance_address, self.next_id);
            self.instances.push(backend);
            self.next_id = self.next_id + 1;
            proof {
                let n = self.instances@.len() - 1;
                assert(self.instances@[n].address == *instance_address);
                assert(self.instances@ =~= old(self).instances@.push(self.instances@.last()));
                assert forall|i: int, j: int|
                    0 <= i < j < self.instances@.len() implies self.instances@[i].address
                    != self.instances@[j].address && self.instances@[i].id
                    != self.instances@[j].id by {
                    if j == n {
                        assert(!old(self).spec_has_addr(*instance_address));
                        assert(old(self).instances@[i].address != *instance_address);
                    }
                }
            }
        } else {
            proof {
                let i = choose|i: int|
                    0 <= i < self.instances@.len() && self.instances@[i].address
                        == instance_address;
                assert(self.spec_has_addr(*instance_address));
            }
        }
    }

    /// Removes the entry with this address; absence is a silent no-op. No
    /// other entry moves relative to its neighbours, and ids are untouched.
    pub fn remove_instance(&mut self, instance_address: &Addr)
        requires
            old(self).wf(),
        ensures
            BackendList::spec_remove_post(*old(self), *final(self), *instance_address),
    {
        match self.find_instance(instance_address) {
            None => {
            },
            Some(i) => {
                let ghost pre = self.instances@;
                self.instances.remove(i);
                proof {
                    assert forall|a: int, b: int|
                        0 <= a < b < self.instances@.len() implies self.instances@[a].address
                        != self.instances@[b].address && self.instances@[a].id
                        != self.instances@[b].id by {
                        if b < i {
                            assert(self.instances@[a] == pre[a]);
                            assert(self.instances@[b] == pre[b]);
                        } else if a < i {
                            assert(self.instances@[a] == pre[a]);
                            assert(self.instances@[b] == pre[b + 1]);
                        } else {
                            assert(self.instances@[a] == pre[a + 1]);
                            assert(self.instances@[b] == pre[b + 1]);
                        }
                    }
                    assert forall|k: int|
                        0 <= k < self.instances@.len() implies self.instances@[k].address
                        != instance_address by {
                        if k < i {
                            assert(self.instances@[k] == pre[k]);
                        } else {
                            assert(self.instances@[k] == pre[k + 1]);
                        }
                    }
                }
            },
        }
    }

    /// The index of the eligible entry with this sticky id, if one exists.
    /// Ids are unique, so an ineligible holder of the id means `None`.
    pub fn find_sticky(&self, sticky_session: u32) -> (r: Option<usize>)
        requires
            self.wf(),
        ensures
            match r {
                Some(i) => i < self.instances@.len() && self.instances@[i as int].id
                    == sticky_session && self.instances@[i as int].spec_can_open(),
                None => !self.spec_has_eligible_id(sticky_session),
            },
    {
        let mut i: usize = 0;
        while i < self.instances.len()
            invariant
                self.wf(),
                i <= self.instances@.len(),
                forall|k: int| 0 <= k < i ==> self.instances@[k].id != sticky_session,
            decreases self.instances@.len() - i,
        {
            if self.instances[i].id == sticky_session {
                if self.instances[i].can_open() {
                    return Some(i);
                } else {
                    proof {
                        assert forall|k: int|
                            0 <= k < self.instances@.len() && self.instances@[k].id
                                == sticky_session implies !self.instances@[k].spec_can_open() by {
                            if k != i {
                                assert(self.instances@[k].id != self.instances@[i as int].id);
                            }
                        }
                    }
                    return None;
                }
            }
            i = i + 1;
        }
        None
    }

    /// The indices of the entries currently eligible for new traffic, in
    /// list order.
    pub fn available_instances(&self) -> (r: Vec<usize>)
        ensures
            forall|k: int|
                0 <= k < r@.len() ==> r@[k] < self.instances@.len() && self.instances@[
                    r@[k] as int
                ].spec_can_open(),
            forall|i: int|
                0 <= i < self.instances@.len() && self.instances@[i].spec_can_open()
                    ==> r@.contains(i as usize),
            forall|k1: int, k2: int| 0 <= k1 < k2 < r@.len() ==> r@[k1] < r@[k2],
            r@.len() > 0 <==> self.spec_has_eligible(),
    {
        let mut r: Vec<usize> = Vec::new();
        let mut i: usize = 0;
        while i < self.instances.len()
            invariant
                i <= self.instances@.len(),
                forall|k: int|
                    0 <= k < r@.len() ==> r@[k] < i && self.instances@[r@[k] as int].spec_can_open(),
                forall|j: int|
                    0 <= j < i && self.instances@[j].spec_can_open() ==> r@.contains(j as usize),
                forall|k1: int, k2: int| 0 <= k1 < k2 < r@.len() ==> r@[k1] < r@[k2],
            decreases self.instances@.len() - i,
        {
            let ghost r_pre = r@;
            if self.instances[i].can_open() {
                r.push(i);
            }
            proof {
                assert forall|j: int|
                    0 <= j < i + 1 && self.instances@[j].spec_can_open() implies r@.contains(
                    j as usize,
                ) by {
                    if j < i {
                        let k = choose|k: int| 0 <= k < r_pre.len() && r_pre[k] == j as usize;
                        assert(r@[k] == j as usize);
                    } else {
                        assert(r@[r@.len() - 1] == i as usize);
                    }
                }
            }
            i = i + 1;
        }
        proof {
            if r@.len() > 0 {
                assert(self.instances@[r@[0] as int].spec_can_open());
            }
            if self.spec_has_eligible() {
                let i = choose|i: int|
                    0 <= i < self.instances@.len() && self.instances@[i].spec_can_open();
                assert(r@.contains(i as usize));
            }
        }
        r
    }

    /// Repeats up to `max_failures` connection attempts, each on an eligible
    /// entry chosen at random. A failed attempt is charged to the attempted
    /// backend and the loop goes on; the budget's exhaustion, like an empty
    /// eligible set, is reported only as `NoBackendAvailable`. On success the
    /// returned `Backend` is a copy of the chosen entry as the list now
    /// holds it.
    fn select_from<S, C: Connector<S>>(
        &mut self,
        max_failures: usize,
        protocol: BackendProtocol,
        server_name: Option<&str>,
        connector: &mut C,
    ) -> (r: Result<(Backend, S), ConnectionError>)
        requires
            old(self).wf(),
        ensures
            final(self).wf(),
            BackendList::spec_same_shape(*old(self), *final(self)),
            !old(self).spec_has_eligible() ==> *final(self) == *old(self),
            r is Err ==> r->Err_0 == ConnectionError::NoBackendAvailable,
            r is Err ==> forall|i: int|
                0 <= i < old(self).instances@.len() ==> (#[trigger] final(self).instances@[
                    i
                ]).failures >= old(self).instances@[i].failures && final(self).instances@[
                    i
                ].active_connections == old(self).instances@[i].active_connections,
            r is Ok ==> exists|i: int|
                {
                    &&& 0 <= i < old(self).instances@.len()
                    &&& old(self).instances@[i].address == r->Ok_0.0.address
                    &&& old(self).instances@[i].id == r->Ok_0.0.id
                    &&& old(self).instances@[i].spec_can_open()
                    &&& final(self).instances@[i] == r->Ok_0.0
                    &&& r->Ok_0.0.failures == 0
                    &&& r->Ok_0.0.active_connections == if old(self).instances@[
                        i
                    ].active_connections < usize::MAX {
                        old(self).instances@[i].active_connections + 1
                    } else {
                        old(self).instances@[i].active_connections as int
                    }
                },
    {
        let mut attempt: usize = 0;
        while attempt < max_failures
            invariant
                self.wf(),
                BackendList::spec_same_shape(*old(self), *self),
                !old(self).spec_has_eligible() ==> *self == *old(self),
                forall|i: int|
                    0 <= i < self.instances@.len() ==> self.instances@[i].failures >= old(self).instances@[i].failures && self.instances@[i].active_connections == old(self).instances@[i].active_connections,
            decreases max_failures - attempt,
        {
            match self.next_available_instance() {
                None => {
                    return Err(ConnectionError::NoBackendAvailable);
                },
                Some(b_idx) => {
                    proof {
                        if !old(self).spec_has_eligible() {
                            assert(old(self).instances@[b_idx as int].spec_can_open());
                            assert(false);
                        }
                    }
                    let ghost pre = self.instances@;
                    let mut b = self.instances.remove(b_idx);
                    let conn = b.try_connect(protocol, server_name, connector);
                    match conn {
                        Ok(s) => {
                            let snap = b.snapshot();
                            self.instances.insert(b_idx, b);
                            proof {
                                assert(self.instances@ =~= pre.update(b_idx as int, snap));
                                BackendList::lemma_same_shape_wf(*old(self), *self);
                                assert(old(self).instances@[b_idx as int].spec_can_open());
                                assert(old(self).instances@[b_idx as int].address == snap.address
                                    && old(self).instances@[b_idx as int].id == snap.id
                                    && self.instances@[b_idx as int] == snap);
                            }
                            return Ok((snap, s));
                        },
                        Err(_) => {
                            self.instances.insert(b_idx, b);
                            proof {
                                assert(self.instances@ =~= pre.update(
                                    b_idx as int,
                                    self.instances@[b_idx as int],
                                ));
                                BackendList::lemma_same_shape_wf(*old(self), *self);
                            }
                        },
                    }
                },
            }
            attempt = attempt + 1;
        }
        Err(ConnectionError::NoBackendAvailable)
    }

    /// One eligible entry chosen at random, or `None` when none is eligible.
    pub fn next_available_instance(&self) -> (r: Option<usize>)
        ensures
            match r {
                Some(i) => i < self.instances@.len() && self.instances@[i as int].spec_can_open(),
                None => !self.spec_has_eligible(),
            },
    {
        let available = self.available_instances();
        if available.len() == 0 {
            return None;
        }
        let rnd = random_usize();
        let idx = rnd % available.len();
        Some(available[idx])
    }
}

/// One application and its backends.
pub struct AppEntry {
    pub app_id: String,
    pub list: BackendList,
}

/// The map from application id to its backend list, with the per-selection
/// retry budget. Application ids are unique; an application with an empty
/// list counts as absent for selection.
pub struct BackendMap {
    pub instances: Vec<AppEntry>,
    pub max_failures: usize,
}

impl BackendMap {
    /// The map's invariant: unique application ids, each list well formed.
    pub open spec fn wf(self) -> bool {
        &&& forall|i: int, j: int|
            0 <= i < j < self.instances@.len() ==> self.instances@[i].app_id@
                != self.instances@[j].app_id@
        &&& forall|i: int| 0 <= i < self.instances@.len() ==> self.instances@[i].list.wf()
    }

    pub open spec fn spec_has_app(self, app: Seq<char>) -> bool {
        exists|i: int| 0 <= i < self.instances@.len() && self.instances@[i].app_id@ == app
    }

    /// The index of the application's entry; meaningful only when
    /// `spec_has_app` holds (ids are unique, so it is then determined).
    pub open spec fn spec_app_index(self, app: Seq<char>) -> int {
        choose|i: int| 0 <= i < self.instances@.len() && self.instances@[i].app_id@ == app
    }

    pub open spec fn spec_app_list(self, app: Seq<char>) -> BackendList {
        self.instances@[self.spec_app_index(app)].list
    }

    /// True iff the application exists and one of its backends has this
    /// address.
    pub open spec fn spec_has_backend(self, app: Seq<char>, addr: Addr) -> bool {
        self.spec_has_app(app) && self.spec_app_list(app).spec_has_addr(addr)
    }

    pub fn new() -> (r: BackendMap)
        ensures
            r.wf(),
            r.instances@.len() == 0,
            r.max_failures == 3,
    {
        BackendMap { instances: Vec::new(), max_failures: 3 }
    }

    /// The index of the application's entry, if the application is known.
    fn find_app_entry(&self, app_id: &str) -> (r: Option<usize>)
        requires
            self.wf(),
        ensures
            match r {
                Some(i) => {
                    &&& i < self.instances@.len()
                    &&& self.instances@[i as int].app_id@ == app_id@
                    &&& self.spec_has_app(app_id@)
                    &&& self.spec_app_index(app_id@) == i
                },
                None => !self.spec_has_app(app_id@),
            },
    {
        let key: String = app_id.to_owned();
        let mut i: usize = 0;
        while i < self.instances.len()
            invariant
                self.wf(),
                key@ == app_id@,
                i <= self.instances@.len(),
                forall|k: int| 0 <= k < i ==> self.instances@[k].app_id@ != app_id@,
            decreases self.instances@.len() - i,
        {
            if self.instances[i].app_id == key {
                proof {
                    let j = self.spec_app_index(app_id@);
                    assert(0 <= j < self.instances@.len() && self.instances@[j].app_id@
                        == app_id@);
                    if j != i {
                        assert(self.instances@[j].app_id@ != self.instances@[i as int].app_id@);
                    }
                }
                return Some(i);
            }
            i = i + 1;
        }
        None
    }

    /// Installs `list` as the application's backend list, replacing a prior
    /// one; every other application keeps its entry.
    fn set_app_list(&mut self, app_id: &str, list: BackendList)
        requires
            old(self).wf(),
            list.wf(),
        ensures
            final(self).wf(),
            final(self).max_failures == old(self).max_failures,
            final(self).spec_has_app(app_id@),
            final(self).spec_app_list(app_id@) == list,
            forall|b: Seq<char>|
                b != app_id@ ==> (#[trigger] final(self).spec_has_app(b)) == old(self).spec_has_app(b),
            forall|b: Seq<char>|
                b != app_id@ && old(self).spec_has_app(b) ==> (#[trigger] final(self).spec_app_list(b)) == old(self).spec_app_list(b),
    {
        let ghost pre = self.instances@;
        match self.find_app_entry(app_id) {
            Some(i) => {
                let mut entry = self.instances.remove(i);
                entry.list = list;
                self.instances.insert(i, entry);
                proof {
                    assert(self.instances@ =~= pre.update(i as int, self.instances@[i as int]));
                    assert forall|a: int, b: int|
                        0 <= a < b < self.instances@.len() implies self.instances@[a].app_id@
                        != self.instances@[b].app_id@ by {
                        assert(self.instances@[a].app_id == pre[a].app_id);
                        assert(self.instances@[b].app_id == pre[b].app_id);
                    }
                    assert(self.spec_has_app(app_id@));
                    let j = self.spec_app_index(app_id@);
                    if j != i as int {
                        assert(self.instances@[j].app_id@ != self.instances@[i as int].app_id@);
                    }
                    assert forall|b: Seq<char>| b != app_id@ implies (#[trigger] self.spec_has_app(
                        b,
                    )) == old(self).spec_has_app(b) by {
                        if old(self).spec_has_app(b) {
                            let j1 = choose|j1: int|
                                0 <= j1 < pre.len() && pre[j1].app_id@ == b;
                            assert(self.instances@[j1].app_id@ == b);
                        }
                        if self.spec_has_app(b) {
                            let j1 = choose|j1: int|
                                0 <= j1 < self.instances@.len() && self.instances@[j1].app_id@
                                    == b;
                            assert(pre[j1].app_id@ == b);
                        }
                    }
                    assert forall|b: Seq<char>|
                        b != app_id@ && old(self).spec_has_app(b) implies (
                    #[trigger] self.spec_app_list(b)) == old(self).spec_app_list(b) by {
                        let j1 = old(self).spec_app_index(b);
                        assert(0 <= j1 < pre.len() && pre[j1].app_id@ == b);
                        assert(j1 != i as int);
                        assert(self.instances@[j1] == pre[j1]);
                        assert(self.spec_has_app(b));
                        let j2 = self.spec_app_index(b);
                        assert(0 <= j2 < self.instances@.len() && self.instances@[j2].app_id@
                            == b);
                        assert(self.instances@[j1].app_id@ == b);
                        if j1 != j2 {
                            assert(self.instances@[j1].app_id@ != self.instances@[j2].app_id@);
                        }
                        assert(self.instances@[j2] == pre[j2]);
                    }
                }
            },
            None => {
                self.instances.push(AppEntry { app_id: app_id.to_owned(), list });
                proof {
                    let n = self.instances@.len() - 1;
                    assert(self.instances@[n].app_id@ == app_id@);
                    assert forall|a: int, b: int|
                        0 <= a < b < self.instances@.len() implies self.instances@[a].app_id@
                        != self.instances@[b].app_id@ by {
                        if b == n {
                            assert(!old(self).spec_has_app(app_id@));
                            assert(old(self).instances@[a].app_id@ != app_id@);
                        }
                    }
                    assert(self.spec_has_app(app_id@));
                    let j = self.spec_app_index(app_id@);
                    if j != n {
                        assert(self.instances@[j].app_id@ != self.instances@[n].app_id@);
                    }
                    assert forall|b: Seq<char>| b != app_id@ implies (#[trigger] self.spec_has_app(
                        b,
                    )) == old(self).spec_has_app(b) by {
                        if old(self).spec_has_app(b) {
                            let j1 = choose|j1: int|
                                0 <= j1 < pre.len() && pre[j1].app_id@ == b;
                            assert(self.instances@[j1].app_id@ == b);
                        }
                        if self.spec_has_app(b) {
                            let j1 = choose|j1: int|
                                0 <= j1 < self.instances@.len() && self.instances@[j1].app_id@
                                    == b;
                            assert(j1 != n);
                            assert(pre[j1].app_id@ == b);
                        }
                    }
                    assert forall|b: Seq<char>|
                        b != app_id@ && old(self).spec_has_app(b) implies (
                    #[trigger] self.spec_app_list(b)) == old(self).spec_app_list(b) by {
                        let j1 = old(self).spec_app_index(b);
                        assert(0 <= j1 < pre.len() && pre[j1].app_id@ == b);
                        assert(j1 != n);
                        assert(self.instances@[j1] == pre[j1]);
                        assert(self.spec_has_app(b));
                        let j2 = self.spec_app_index(b);
                        assert(0 <= j2 < self.instances@.len() && self.instances@[j2].app_id@
                            == b);
                        assert(self.instances@[j1].app_id@ == b);
                        if j1 != j2 {
                            assert(self.instances@[j1].app_id@ != self.instances@[j2].app_id@);
                        }
                        assert(self.instances@[j2] == pre[j2]);
                    }
                }
            },
        }
    }

    /// Imports a configuration snapshot: each application named in it gets
    /// the list its records build — the last occurrence of an application
    /// wins — and every application not named keeps its list.
    pub fn import_configuration_state(&mut self, instances: &Vec<(String, Vec<Instance>)>)
        requires
            old(self).wf(),
            forall|k: int| 0 <= k < instances@.len() ==> (#[trigger] instances@[k].1@).len()
                < u32::MAX,
        ensures
            final(self).wf(),
            final(self).max_failures == old(self).max_failures,
            forall|k: int|
                0 <= k < instances@.len() && (forall|m: int|
                    k < m < instances@.len() ==> instances@[m].0@ != instances@[k].0@) ==> (
                #[trigger] final(self).spec_has_app(instances@[k].0@))
                    && BackendList::spec_import_post(
                    instances@[k].1@,
                    final(self).spec_app_list(instances@[k].0@),
                ),
            forall|j: int|
                0 <= j < old(self).instances@.len() && (forall|k: int|
                    0 <= k < instances@.len() ==> instances@[k].0@ != old(self).instances@[
                        j
                    ].app_id@) ==> (#[trigger] final(self).spec_has_app(
                    old(self).instances@[j].app_id@,
                )) && final(self).spec_app_list(old(self).instances@[j].app_id@) == old(self).instances@[j].list,
    {
        let mut i: usize = 0;
        while i < instances.len()
            invariant
                i <= instances@.len(),
                self.wf(),
                self.max_failures == old(self).max_failures,
                forall|k: int| 0 <= k < instances@.len() ==> (#[trigger] instances@[k].1@).len()
                    < u32::MAX,
                forall|k: int|
                    0 <= k < i && (forall|m: int|
                        k < m < i ==> instances@[m].0@ != instances@[k].0@) ==> (
                    #[trigger] self.spec_has_app(instances@[k].0@))
                        && BackendList::spec_import_post(
                        instances@[k].1@,
                        self.spec_app_list(instances@[k].0@),
                    ),
                forall|j: int|
                    0 <= j < old(self).instances@.len() && (forall|k: int|
                        0 <= k < i ==> instances@[k].0@ != old(self).instances@[j].app_id@)
                        ==> (#[trigger] self.spec_has_app(old(self).instances@[j].app_id@))
                        && self.spec_app_list(old(self).instances@[j].app_id@) == old(self).instances@[j].list,
            decreases instances@.len() - i,
        {
            let ghost mid = *self;
            let pair = &instances[i];
            let list = BackendList::import_configuration_state(&pair.1);
            self.set_app_list(pair.0.as_str(), list);
            proof {
                let a = instances@[i as int].0@;
                assert forall|k: int|
                    0 <= k < i + 1 && (forall|m: int|
                        k < m < i + 1 ==> instances@[m].0@ != instances@[k].0@) implies (
                #[trigger] self.spec_has_app(instances@[k].0@))
                    && BackendList::spec_import_post(
                    instances@[k].1@,
                    self.spec_app_list(instances@[k].0@),
                ) by {
                    if k == i as int {
                        assert(self.spec_has_app(a) && self.spec_app_list(a) == list);
                    } else {
                        assert(instances@[k].0@ != a);
                        assert(mid.spec_has_app(instances@[k].0@)
                            && BackendList::spec_import_post(
                            instances@[k].1@,
                            mid.spec_app_list(instances@[k].0@),
                        ));
                        assert(self.spec_has_app(instances@[k].0@) == mid.spec_has_app(
                            instances@[k].0@,
                        ));
                        assert(self.spec_app_list(instances@[k].0@) == mid.spec_app_list(
                            instances@[k].0@,
                        ));
                    }
                }
                assert forall|j: int|
                    0 <= j < old(self).instances@.len() && (forall|k: int|
                        0 <= k < i + 1 ==> instances@[k].0@ != old(self).instances@[j].app_id@)
                        implies (#[trigger] self.spec_has_app(old(self).instances@[j].app_id@))
                    && self.spec_app_list(old(self).instances@[j].app_id@) == old(
                    self,
                ).instances@[j].list by {
                    let b = old(self).instances@[j].app_id@;
                    assert(b != a);
                    assert(mid.spec_has_app(b) && mid.spec_app_list(b) == old(self).instances@[
                        j
                    ].list);
                    assert(self.spec_has_app(b) == mid.spec_has_app(b));
                    assert(self.spec_app_list(b) == mid.spec_app_list(b));
                }
            }
            i = i + 1;
        }
    }

    /// Adds a backend to the application, creating the application's list if
    /// it is absent. Idempotent: an address already present leaves the map
    /// unchanged.
    pub fn add_instance(&mut self, app_id: &str, instance_id: &str, instance_address: &Addr)
        requires
            old(self).wf(),
            old(self).spec_has_app(app_id@) ==> old(self).spec_app_list(app_id@).next_id
                < u32::MAX,
        ensures
            final(self).wf(),
            final(self).max_failures == old(self).max_failures,
            final(self).spec_has_backend(app_id@, *instance_address),
            old(self).spec_has_backend(app_id@, *instance_address) ==> final(self).instances@
                == old(self).instances@,
            old(self).spec_has_app(app_id@) ==> {
                let idx = old(self).spec_app_index(app_id@);
                &&& final(self).instances@.len() == old(self).instances@.len()
                &&& forall|j: int|
                    0 <= j < old(self).instances@.len() && j != idx ==> final(self).instances@[j]
                        == old(self).instances@[j]
                &&& final(self).instances@[idx].app_id == old(self).instances@[idx].app_id
                &&& BackendList::spec_add_post(
                    old(self).spec_app_list(app_id@),
                    final(self).instances@[idx].list,
                    instance_id@,
                    *instance_address,
                )
            },
            !old(self).spec_has_app(app_id@) ==> {
                &&& final(self).instances@.len() == old(self).instances@.len() + 1
                &&& forall|j: int|
                    0 <= j < old(self).instances@.len() ==> final(self).instances@[j] == old(self).instances@[j]
                &&& final(self).instances@.last().app_id@ == app_id@
                &&& final(self).instances@.last().list.instances@.len() == 1
                &&& final(self).instances@.last().list.instances@[0].address == instance_address
                &&& final(self).instances@.last().list.instances@[0].id == 0
                &&& final(self).instances@.last().list.instances@[0].instance_id@ == instance_id@
                &&& final(self).instances@.last().list.next_id == 1
            },
    {
        match self.find_app_entry(app_id) {
            Some(i) => {
                let ghost pre = self.instances@;
                let mut entry = self.instances.remove(i);
                entry.list.add_instance(instance_id, instance_address);
                self.instances.insert(i, entry);
                proof {
                    assert(self.instances@ =~= pre.update(i as int, self.instances@[i as int]));
                    assert forall|a: int, b: int|
                        0 <= a < b < self.instances@.len() implies self.instances@[a].app_id@
                        != self.instances@[b].app_id@ by {
                        assert(self.instances@[a].app_id == pre[a].app_id);
                        assert(self.instances@[b].app_id == pre[b].app_id);
                    }
                    assert(self.spec_has_app(app_id@));
                    let j = self.spec_app_index(app_id@);
                    if j != i as int {
                        assert(self.instances@[j].app_id@ != self.instances@[i as int].app_id@);
                    }
                    if old(self).spec_has_backend(app_id@, *instance_address) {
                        assert(self.instances@ =~= pre);
                    }
                }
            },
            None => {
                let mut list = BackendList::new();
                list.add_instance(instance_id, instance_address);
                let entry = AppEntry { app_id: app_id.to_owned(), list };
                self.instances.push(entry);
                proof {
                    let n = self.instances@.len() - 1;
                    assert(self.instances@[n].app_id@ == app_id@);
                    assert forall|a: int, b: int|
                        0 <= a < b < self.instances@.len() implies self.instances@[a].app_id@
                        != self.instances@[b].app_id@ by {
                        if b == n {
                            assert(!old(self).spec_has_app(app_id@));
                            assert(old(self).instances@[a].app_id@ != app_id@);
                        }
                    }
                    assert(self.spec_has_app(app_id@));
                    let j = self.spec_app_index(app_id@);
                    if j != n {
                        assert(self.instances@[j].app_id@ != self.instances@[n].app_id@);
                    }
                }
            },
        }
    }

    /// Removes the backend with this address from the application. An
    /// unknown application is a non-fatal error and leaves the map
    /// unchanged, as does an address the application does not hold.
    pub fn remove_instance(&mut self, app_id: &str, instance_address: &Addr)
        requires
            old(self).wf(),
        ensures
            final(self).wf(),
            final(self).max_failures == old(self).max_failures,
            !final(self).spec_has_backend(app_id@, *instance_address),
            !old(self).spec_has_app(app_id@) ==> final(self).instances@ == old(self).instances@,
            old(self).spec_has_app(app_id@) ==> {
                let idx = old(self).spec_app_index(app_id@);
                &&& final(self).instances@.len() == old(self).instances@.len()
                &&& forall|j: int|
                    0 <= j < old(self).instances@.len() && j != idx ==> final(self).instances@[j]
                        == old(self).instances@[j]
                &&& final(self).instances@[idx].app_id == old(self).instances@[idx].app_id
                &&& BackendList::spec_remove_post(
                    old(self).spec_app_list(app_id@),
                    final(self).instances@[idx].list,
                    *instance_address,
                )
            },
    {
        match self.find_app_entry(app_id) {
            None => {
            },
            Some(i) => {
                let ghost pre = self.instances@;
                let mut entry = self.instances.remove(i);
                entry.list.remove_instance(instance_address);
                self.instances.insert(i, entry);
                proof {
                    assert(self.instances@ =~= pre.update(i as int, self.instances@[i as int]));
                    assert forall|a: int, b: int|
                        0 <= a < b < self.instances@.len() implies self.instances@[a].app_id@
                        != self.instances@[b].app_id@ by {
                        assert(self.instances@[a].app_id == pre[a].app_id);
                        assert(self.instances@[b].app_id == pre[b].app_id);
                    }
                    assert(self.spec_has_app(app_id@));
                    let j = self.spec_app_index(app_id@);
                    if j != i as int {
                        assert(self.instances@[j].app_id@ != self.instances@[i as int].app_id@);
                    }
                }
            },
        }
    }

    /// Releases one connection slot of the backend with this address.
    /// Absence at either level is silent.
    pub fn close_backend_connection(&mut self, app_id: &str, addr: &Addr)
        requires
            old(self).wf(),
        ensures
            final(self).wf(),
            final(self).max_failures == old(self).max_failures,
            !old(self).spec_has_backend(app_id@, *addr) ==> final(self).instances@ == old(self).instances@,
            old(self).spec_has_backend(app_id@, *addr) ==> {
                let idx = old(self).spec_app_index(app_id@);
                &&& final(self).instances@.len() == old(self).instances@.len()
                &&& forall|j: int|
                    0 <= j < old(self).instances@.len() && j != idx ==> final(self).instances@[j]
                        == old(self).instances@[j]
                &&& final(self).instances@[idx].app_id == old(self).instances@[idx].app_id
                &&& exists|k: int|
                    #![trigger old(self).spec_app_list(app_id@).instances@[k]]
                    {
                        let pre_list = old(self).spec_app_list(app_id@);
                        let post_list = final(self).instances@[idx].list;
                        &&& 0 <= k < pre_list.instances@.len()
                        &&& pre_list.instances@[k].address == addr
                        &&& post_list.next_id == pre_list.next_id
                        &&& post_list.instances@.len() == pre_list.instances@.len()
                        &&& forall|m: int|
                            0 <= m < pre_list.instances@.len() && m != k
                                ==> post_list.instances@[m] == pre_list.instances@[m]
                        &&& post_list.instances@[k].address == pre_list.instances@[k].address
                        &&& post_list.instances@[k].id == pre_list.instances@[k].id
                        &&& post_list.instances@[k].instance_id == pre_list.instances@[
                            k
                        ].instance_id
                        &&& post_list.instances@[k].failures == pre_list.instances@[k].failures
                        &&& post_list.instances@[k].active_connections == if pre_list.instances@[
                            k
                        ].active_connections > 0 {
                            pre_list.instances@[k].active_connections - 1
                        } else {
                            0
                        }
                    }
            },
    {
        match self.find_app_entry(app_id) {
            None => {
            },
            Some(i) => {
                let ghost pre = self.instances@;
                let mut entry = self.instances.remove(i);
                match entry.list.find_instance(addr) {
                    None => {
                        self.instances.insert(i, entry);
                        proof {
                            assert(self.instances@ =~= pre);
                        }
                    },
                    Some(k) => {
                        let ghost pre_list = entry.list.instances@;
                        let mut b = entry.list.instances.remove(k);
                        b.dec_connections();
                        entry.list.instances.insert(k, b);
                        self.instances.insert(i, entry);
                        proof {
                            assert(self.instances@[i as int].list.instances@ =~= pre_list.update(
                                k as int,
                                self.instances@[i as int].list.instances@[k as int],
                            ));
                            assert(self.instances@ =~= pre.update(
                                i as int,
                                self.instances@[i as int],
                            ));
                            assert forall|a: int, b2: int|
                                0 <= a < b2 < self.instances@.len() implies self.instances@[
                                a
                            ].app_id@ != self.instances@[b2].app_id@ by {
                                assert(self.instances@[a].app_id == pre[a].app_id);
                                assert(self.instances@[b2].app_id == pre[b2].app_id);
                            }
                            BackendList::lemma_same_shape_wf(
                                old(self).instances@[i as int].list,
                                self.instances@[i as int].list,
                            );
                            let j = old(self).spec_app_index(app_id@);
                            if j != i as int {
                                assert(old(self).instances@[j].app_id@ != old(self).instances@[
                                    i as int
                                ].app_id@);
                            }
                        }
                    },
                }
            },
        }
    }

    /// `post` has the same applications as `pre`, each with the same
    /// endpoints; only counters may differ.
    pub open spec fn spec_same_shape(pre: BackendMap, post: BackendMap) -> bool {
        &&& post.instances@.len() == pre.instances@.len()
        &&& post.max_failures == pre.max_failures
        &&& forall|i: int|
            0 <= i < pre.instances@.len() ==> post.instances@[i].app_id == pre.instances@[
                i
            ].app_id && BackendList::spec_same_shape(
                pre.instances@[i].list,
                post.instances@[i].list,
            )
    }

    /// What every non-sticky selection leaves behind. An unknown application
    /// or an empty list fails at once with `NoBackendAvailable` and changes
    /// nothing; every failure is reported as `NoBackendAvailable`; a success
    /// hands back a copy of a backend of the application that was eligible
    /// when the call began, together with the connector's socket.
    pub open spec fn spec_select_post<S>(
        pre: BackendMap,
        post: BackendMap,
        app: Seq<char>,
        r: Result<(Backend, S), ConnectionError>,
    ) -> bool {
        &&& post.wf()
        &&& BackendMap::spec_same_shape(pre, post)
        &&& (!pre.spec_has_app(app) || pre.spec_app_list(app).instances@.len() == 0) ==> (r
            == Err::<(Backend, S), ConnectionError>(ConnectionError::NoBackendAvailable)
            && post.instances@ == pre.instances@)
        &&& (r is Err ==> r->Err_0 == ConnectionError::NoBackendAvailable)
        &&& (pre.spec_has_app(app) && !pre.spec_app_list(app).spec_has_eligible() ==> r is Err
            && post.instances@ == pre.instances@)
        &&& (r is Err && pre.spec_has_app(app) ==> forall|i: int|
            0 <= i < pre.spec_app_list(app).instances@.len() ==> (#[trigger] post.spec_app_list(
                app,
            ).instances@[i]).failures >= pre.spec_app_list(app).instances@[i].failures
                && post.spec_app_list(app).instances@[i].active_connections
                == pre.spec_app_list(app).instances@[i].active_connections)
        &&& (r is Ok ==> {
            &&& pre.spec_has_app(app)
            &&& exists|i: int|
                #![trigger pre.spec_app_list(app).instances@[i]]
                {
                    &&& 0 <= i < pre.spec_app_list(app).instances@.len()
                    &&& pre.spec_app_list(app).instances@[i].address == r->Ok_0.0.address
                    &&& pre.spec_app_list(app).instances@[i].id == r->Ok_0.0.id
                    &&& pre.spec_app_list(app).instances@[i].spec_can_open()
                    &&& post.spec_app_list(app).instances@[i] == r->Ok_0.0
                    &&& r->Ok_0.0.failures == 0
                    &&& r->Ok_0.0.active_connections == if pre.spec_app_list(app).instances@[
                        i
                    ].active_connections < usize::MAX {
                        pre.spec_app_list(app).instances@[i].active_connections + 1
                    } else {
                        pre.spec_app_list(app).instances@[i].active_connections as int
                    }
                }
        })
    }

    /// True iff the application has an eligible backend whose id is the
    /// sticky key.
    pub open spec fn spec_has_sticky(self, app: Seq<char>, sticky_session: u32) -> bool {
        self.spec_has_app(app) && self.spec_app_list(app).spec_has_eligible_id(sticky_session)
    }

    /// The primary selection path: pick an eligible backend of the
    /// application uniformly at random and try to connect, retrying on
    /// failure up to `max_failures` times.
    pub fn backend_from_app_id<S, C: Connector<S>>(
        &mut self,
        app_id: &str,
        protocol: BackendProtocol,
        server_name: Option<&str>,
        connector: &mut C,
    ) -> (r: Result<(Backend, S), ConnectionError>)
        requires
            old(self).wf(),
        ensures
            BackendMap::spec_select_post(*old(self), *final(self), app_id@, r),
    {
        let i = match self.find_app_entry(app_id) {
            None => {
                return Err(ConnectionError::NoBackendAvailable);
            },
            Some(i) => i,
        };
        if self.instances[i].list.instances.len() == 0 {
            return Err(ConnectionError::NoBackendAvailable);
        }
        let maxf = self.max_failures;
        let ghost pre = self.instances@;
        let mut entry = self.instances.remove(i);
        let ghost pre_list = entry.list;
        let r = entry.list.select_from(maxf, protocol, server_name, connector);
        let ghost post_list = entry.list;
        self.instances.insert(i, entry);
        proof {
            assert(self.instances@ =~= pre.update(i as int, self.instances@[i as int]));
            assert forall|a: int, b: int|
                0 <= a < b < self.instances@.len() implies self.instances@[a].app_id@
                != self.instances@[b].app_id@ by {
                assert(self.instances@[a].app_id == pre[a].app_id);
                assert(self.instances@[b].app_id == pre[b].app_id);
            }
            BackendList::lemma_same_shape_wf(
                old(self).instances@[i as int].list,
                self.instances@[i as int].list,
            );
            assert(self.spec_has_app(app_id@));
            let j = self.spec_app_index(app_id@);
            if j != i as int {
                assert(self.instances@[j].app_id@ != self.instances@[i as int].app_id@);
            }
            assert(self.spec_app_list(app_id@) == self.instances@[i as int].list);
            assert(old(self).spec_app_list(app_id@) == pre_list);
            assert(self.spec_app_list(app_id@) == post_list);
            if r is Ok {
                let b = r->Ok_0.0;
                let kk = choose|kk: int|
                    {
                        &&& 0 <= kk < pre_list.instances@.len()
                        &&& pre_list.instances@[kk].address == b.address
                        &&& pre_list.instances@[kk].id == b.id
                        &&& pre_list.instances@[kk].spec_can_open()
                        &&& post_list.instances@[kk] == b
                        &&& b.failures == 0
                        &&& b.active_connections == if pre_list.instances@[
                            kk
                        ].active_connections < usize::MAX {
                            pre_list.instances@[kk].active_connections + 1
                        } else {
                            pre_list.instances@[kk].active_connections as int
                        }
                    };
                assert(old(self).spec_app_list(app_id@).instances@[kk].address == b.address);
                assert(old(self).spec_app_list(app_id@).instances@[kk].spec_can_open());
                assert(self.spec_app_list(app_id@).instances@[kk] == b);
            }
            if !old(self).spec_app_list(app_id@).spec_has_eligible() {
                assert(post_list == pre_list);
                assert(self.instances@ =~= old(self).instances@);
            }
            if r is Err {
                assert forall|kk: int|
                    0 <= kk < old(self).spec_app_list(app_id@).instances@.len() implies (
                #[trigger] self.spec_app_list(app_id@).instances@[kk]).failures
                    >= old(self).spec_app_list(app_id@).instances@[kk].failures
                    && self.spec_app_list(app_id@).instances@[kk].active_connections == old(
                    self,
                ).spec_app_list(app_id@).instances@[kk].active_connections by {
                    assert(post_list.instances@[kk].failures >= pre_list.instances@[kk].failures);
                }
            }
        }
        r
    }

    /// The sticky selection path: if the application holds an eligible
    /// backend whose id is the sticky key, exactly one connection attempt is
    /// made on that backend and its outcome is returned as is — no other
    /// backend is touched. Otherwise the call falls back to the non-sticky
    /// selection on the same state.
    pub fn backend_from_sticky_session<S, C: Connector<S>>(
        &mut self,
        app_id: &str,
        sticky_session: u32,
        protocol: BackendProtocol,
        server_name: Option<&str>,
        connector: &mut C,
    ) -> (r: Result<(Backend, S), ConnectionError>)
        requires
            old(self).wf(),
        ensures
            final(self).wf(),
            BackendMap::spec_same_shape(*old(self), *final(self)),
            !old(self).spec_has_sticky(app_id@, sticky_session) ==> BackendMap::spec_select_post(
                *old(self),
                *final(self),
                app_id@,
                r,
            ),
            old(self).spec_has_sticky(app_id@, sticky_session) ==> {
                let idx = old(self).spec_app_index(app_id@);
                &&& forall|j: int|
                    0 <= j < old(self).instances@.len() && j != idx ==> final(self).instances@[j]
                        == old(self).instances@[j]
                &&& (r is Ok ==> r->Ok_0.0.id == sticky_session)
                &&& exists|k: int|
                    #![trigger old(self).spec_app_list(app_id@).instances@[k]]
                    {
                        let pre_list = old(self).spec_app_list(app_id@);
                        let post_list = final(self).instances@[idx].list;
                        &&& 0 <= k < pre_list.instances@.len()
                        &&& pre_list.instances@[k].id == sticky_session
                        &&& pre_list.instances@[k].spec_can_open()
                        &&& forall|m: int|
                            0 <= m < pre_list.instances@.len() && m != k
                                ==> post_list.instances@[m] == pre_list.instances@[m]
                        &&& post_list.instances@[k].address == pre_list.instances@[k].address
                        &&& post_list.instances@[k].id == sticky_session
                        &&& (r is Ok ==> r->Ok_0.0 == post_list.instances@[k])
                        &&& (r is Ok ==> post_list.instances@[k].failures == 0
                            && post_list.instances@[k].active_connections == if pre_list.instances@[
                            k
                        ].active_connections < usize::MAX {
                            pre_list.instances@[k].active_connections + 1
                        } else {
                            pre_list.instances@[k].active_connections as int
                        })
                        &&& (r is Err ==> post_list.instances@[k].active_connections
                            == pre_list.instances@[k].active_connections
                            && post_list.instances@[k].failures == if pre_list.instances@[
                            k
                        ].failures < usize::MAX {
                            pre_list.instances@[k].failures + 1
                        } else {
                            pre_list.instances@[k].failures as int
                        })
                    }
            },
    {
        let i = match self.find_app_entry(app_id) {
            None => {
                return self.backend_from_app_id(app_id, protocol, server_name, connector);
            },
            Some(i) => i,
        };
        let sticky = self.instances[i].list.find_sticky(sticky_session);
        match sticky {
            None => self.backend_from_app_id(app_id, protocol, server_name, connector),
            Some(k) => {
                let ghost pre = self.instances@;
                let mut entry = self.instances.remove(i);
                let ghost pre_list = entry.list.instances@;
                let mut b = entry.list.instances.remove(k);
                let conn = b.try_connect(protocol, server_name, connector);
                let snap = b.snapshot();
                entry.list.instances.insert(k, b);
                self.instances.insert(i, entry);
                proof {
                    assert(self.instances@[i as int].list.instances@ =~= pre_list.update(
                        k as int,
                        self.instances@[i as int].list.instances@[k as int],
                    ));
                    assert(self.instances@ =~= pre.update(i as int, self.instances@[i as int]));
                    assert forall|a: int, b2: int|
                        0 <= a < b2 < self.instances@.len() implies self.instances@[a].app_id@
                        != self.instances@[b2].app_id@ by {
                        assert(self.instances@[a].app_id == pre[a].app_id);
                        assert(self.instances@[b2].app_id == pre[b2].app_id);
                    }
                    BackendList::lemma_same_shape_wf(
                        old(self).instances@[i as int].list,
                        self.instances@[i as int].list,
                    );
                    assert(old(self).spec_app_list(app_id@).instances@[k as int].id
                        == sticky_session);
                }
                match conn {
                    Ok(s) => Ok((snap, s)),
                    Err(e) => Err(e),
                }
            },
        }
    }

    /// Pure membership test: does this application have a backend with the
    /// given backend's address?
    pub fn has_backend(&self, app_id: &str, backend: &Backend) -> (r: bool)
        requires
            self.wf(),
        ensures
            r == self.spec_has_backend(app_id@, backend.address),
    {
        match self.find_app_entry(app_id) {
            None => false,
            Some(i) => self.instances[i].list.has_instance(&backend.address),
        }
    }
}

} // verus!
