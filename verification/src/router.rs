//! The set of virtual devices: their identities and order, the system
//! endpoints created on the side, and saving/restoring the whole routing
//! setup as a profile.
use vstd::prelude::*;
use vstd::string::*;

use crate::routing::{device_wf, new_device_view, DeviceView, VirtualDevice};
use crate::text::{decimal, decimal_string, str_equal, string_views};

verus! {

/// Every virtual device, in creation order, plus the counter used to name
/// new devices and endpoints and the instance ids of the system endpoints.
pub struct Router {
    pub devices: Vec<VirtualDevice>,
    pub next_id: u32,
    pub endpoints: Vec<String>,
}

pub struct RouterView {
    pub devices: Seq<DeviceView>,
    pub next_id: u32,
    pub endpoints: Seq<Seq<char>>,
}

impl View for Router {
    type V = RouterView;

    open spec fn view(&self) -> RouterView {
        RouterView {
            devices: self.devices@.map_values(|d: VirtualDevice| d@),
            next_id: self.next_id,
            endpoints: string_views(self.endpoints@),
        }
    }
}

/// `device-<n>`.
pub open spec fn device_id_for(n: nat) -> Seq<char> {
    "device-"@ + decimal(n)
}

/// `ep<n>`.
pub open spec fn endpoint_suffix_for(n: nat) -> Seq<char> {
    "ep"@ + decimal(n)
}

pub open spec fn unknown_device_error(id: Seq<char>) -> Seq<char> {
    "Unknown device: "@ + id
}

/// `id` is `device-<k>` for some `1 <= k <= n`.
pub open spec fn issued_id(id: Seq<char>, n: nat) -> bool {
    exists|k: nat| 1 <= k <= n && id == #[trigger] device_id_for(k)
}

/// The router's invariant: every device is well formed and is named
/// `device-<k>` for a distinct `1 <= k <= next_id`; endpoint ids are distinct.
pub open spec fn router_wf(r: RouterView) -> bool {
    &&& forall|i: int| 0 <= i < r.devices.len() ==> device_wf(#[trigger] r.devices[i])
    &&& forall|i: int| 0 <= i < r.devices.len() ==> issued_id(#[trigger] r.devices[i].id, r.next_id as nat)
    &&& forall|i: int, j: int| 0 <= i < j < r.devices.len() ==> r.devices[i].id != r.devices[j].id
    &&& forall|i: int, j: int| 0 <= i < j < r.endpoints.len() ==> r.endpoints[i] != r.endpoints[j]
}

pub open spec fn device_from(ds: Seq<DeviceView>, id: Seq<char>, i: int) -> Option<int>
    decreases ds.len() - i,
{
    if i < 0 || i >= ds.len() {
        None
    } else if ds[i].id == id {
        Some(i)
    } else {
        device_from(ds, id, i + 1)
    }
}

/// Position of the device `id`.
pub open spec fn device_pos(ds: Seq<DeviceView>, id: Seq<char>) -> Option<int> {
    device_from(ds, id, 0)
}

pub open spec fn endpoint_from(es: Seq<Seq<char>>, id: Seq<char>, i: int) -> Option<int>
    decreases es.len() - i,
{
    if i < 0 || i >= es.len() {
        None
    } else if es[i] == id {
        Some(i)
    } else {
        endpoint_from(es, id, i + 1)
    }
}

/// What the search from position `i` finds is a device with id `id` at or
/// after `i`; when it finds none, no device from `i` on has that id.
pub proof fn lemma_device_from_found(ds: Seq<DeviceView>, id: Seq<char>, i: int)
    requires
        0 <= i,
    ensures
        device_from(ds, id, i) matches Some(k) ==> i <= k < ds.len() && ds[k].id == id,
        device_from(ds, id, i) is None ==> forall|k: int| i <= k < ds.len() ==> (#[trigger] ds[k]).id != id,
    decreases ds.len() - i,
{
    if i < ds.len() && ds[i].id != id {
        lemma_device_from_found(ds, id, i + 1);
    }
}

/// An id issued under a smaller counter is issued under a larger one.
pub proof fn lemma_issued_id_mono(id: Seq<char>, n: nat, m: nat)
    requires
        issued_id(id, n),
        n <= m,
    ensures
        issued_id(id, m),
{
    let k = choose|k: nat| 1 <= k <= n && id == device_id_for(k);
    assert(1 <= k <= m && id == device_id_for(k));
}

/// Distinct counters give distinct device ids.
pub proof fn lemma_device_id_injective(a: nat, b: nat)
    requires
        device_id_for(a) == device_id_for(b),
    ensures
        a == b,
{
    reveal_strlit("device-");
    let da = decimal(a);
    let db = decimal(b);
    crate::recording::lemma_decimal_value(a);
    crate::recording::lemma_decimal_value(b);
    assert(device_id_for(a).len() == 7 + da.len());
    assert(device_id_for(b).len() == 7 + db.len());
    assert(device_id_for(a).subrange(7, 7 + da.len() as int) =~= da);
    assert(device_id_for(b).subrange(7, 7 + db.len() as int) =~= db);
    assert(da == db);
}

fn device_id_string(n: u32) -> (r: String)
    ensures
        r@ == device_id_for(n as nat),
{
    let digits = decimal_string(n as u64);
    let mut s = String::from_str("device-");
    s.append(digits.as_str());
    s
}

impl Router {
    /// No devices, no endpoints, counter at zero.
    pub fn new() -> (r: Router)
        ensures
            r@.devices.len() == 0,
            r@.endpoints.len() == 0,
            r@.next_id == 0,
            router_wf(r@),
    {
        Router { devices: Vec::new(), next_id: 0, endpoints: Vec::new() }
    }

    /// Position of device `id`, or the error reported for an unknown id.
    pub fn device_index(&self, id: &str) -> (r: Result<usize, String>)
        ensures
            match r {
                Ok(k) => device_pos(self@.devices, id@) == Some(k as int) && k < self@.devices.len(),
                Err(e) => device_pos(self@.devices, id@) is None && e@ == unknown_device_error(id@),
            },
    {
        let mut i: usize = 0;
        while i < self.devices.len()
            invariant
                i <= self.devices@.len(),
                device_pos(self@.devices, id@) == device_from(self@.devices, id@, i as int),
            decreases self.devices@.len() - i,
        {
            if str_equal(self.devices[i].id.as_str(), id) {
                return Ok(i);
            }
            i = i + 1;
        }
        let mut e = String::from_str("Unknown device: ");
        e.append(id);
        Err(e)
    }

    /// Creates a device called `name` with the next free id
    /// `device-<next_id + 1>`, placed last, and returns its id.
    pub fn create_device(&mut self, name: String) -> (id: String)
        requires
            router_wf(old(self)@),
            old(self).next_id < u32::MAX,
        ensures
            router_wf(final(self)@),
            id@ == device_id_for(old(self).next_id as nat + 1),
            final(self).next_id == old(self).next_id + 1,
            final(self)@.endpoints == old(self)@.endpoints,
            final(self)@.devices.len() == old(self)@.devices.len() + 1,
            forall|i: int| 0 <= i < old(self)@.devices.len() ==> #[trigger] final(self)@.devices[i] == old(self)@.devices[i],
            final(self)@.devices.last() == new_device_view(id@, name@),
    {
        self.next_id = self.next_id + 1;
        let id = device_id_string(self.next_id);
        let d = VirtualDevice::new(id.clone(), name);
        let ghost old_devs = old(self)@.devices;
        self.devices.push(d);
        assert(self@.devices =~= old_devs.push(self.devices@.last()@));
        proof {
            assert(self@.endpoints =~= old(self)@.endpoints);
            let n = self.next_id as nat;
            assert forall|i: int, j: int| 0 <= i < j < self@.devices.len() implies self@.devices[i].id
                != self@.devices[j].id by {
                if j == self@.devices.len() - 1 {
                    assert(self@.devices[i] == old_devs[i]);
                    assert(issued_id(old_devs[i].id, old(self).next_id as nat));
                    let k = choose|k: nat| 1 <= k <= old(self).next_id && old_devs[i].id == device_id_for(k);
                    if old_devs[i].id == device_id_for(n) {
                        lemma_device_id_injective(k, n);
                    }
                } else {
                    assert(self@.devices[i] == old_devs[i]);
                    assert(self@.devices[j] == old_devs[j]);
                }
            }
            assert forall|i: int| 0 <= i < self@.devices.len() implies issued_id(
                #[trigger] self@.devices[i].id,
                self.next_id as nat,
            ) by {
                if i == self@.devices.len() - 1 {
                    assert(self@.devices[i].id == device_id_for(n));
                } else {
                    assert(self@.devices[i] == old_devs[i]);
                    lemma_issued_id_mono(old_devs[i].id, old(self).next_id as nat, n);
                }
            }
            assert forall|i: int| 0 <= i < self@.devices.len() implies device_wf(#[trigger] self@.devices[i]) by {
                if i < self@.devices.len() - 1 {
                    assert(self@.devices[i] == old_devs[i]);
                }
            }
        }
        id
    }

    /// Removes device `id` and hands it back so its live resources can be
    /// shut down; None when there is no such device.
    pub fn delete_device(&mut self, id: &str) -> (removed: Option<VirtualDevice>)
        requires
            router_wf(old(self)@),
        ensures
            router_wf(final(self)@),
            final(self).next_id == old(self).next_id,
            final(self)@.endpoints == old(self)@.endpoints,
            match device_pos(old(self)@.devices, id@) {
                Some(i) => removed matches Some(d) && d@ == old(self)@.devices[i] && final(self)@.devices
                    == old(self)@.devices.remove(i),
                None => removed is None && final(self)@.devices == old(self)@.devices,
            },
    {
        proof {
            lemma_device_from_found(self@.devices, id@, 0);
        }
        match self.device_index(id) {
            Ok(i) => {
                let ghost old_devs = self@.devices;
                let d = self.devices.remove(i);
                assert(d@ == old_devs[i as int]);
                assert(self@.devices =~= old_devs.remove(i as int));
                proof {
                    assert(self@.endpoints =~= old(self)@.endpoints);
                    assert forall|a: int| 0 <= a < self@.devices.len() implies issued_id(
                        #[trigger] self@.devices[a].id,
                        self.next_id as nat,
                    ) && device_wf(self@.devices[a]) by {
                        if a < i {
                            assert(self@.devices[a] == old_devs[a]);
                        } else {
                            assert(self@.devices[a] == old_devs[a + 1]);
                        }
                    }
                    assert forall|a: int, b: int| 0 <= a < b < self@.devices.len() implies self@.devices[a].id
                        != self@.devices[b].id by {
                        let a0 = if a < i { a } else { a + 1 };
                        let b0 = if b < i { b } else { b + 1 };
                        assert(self@.devices[a] == old_devs[a0]);
                        assert(self@.devices[b] == old_devs[b0]);
                    }
                }
                Some(d)
            },
            Err(_) => None,
        }
    }

    /// Renames device `id`.
    /// Runs `f` on device `id` and returns what it returns, or fails with
    /// `Unknown device: <id>` and changes nothing. Only that device can
    /// change, and only as `f` changes it.
    pub fn with_device_mut<T, F: FnOnce(&mut VirtualDevice) -> Result<T, String>>(&mut self, id: &str, f: F) -> (r: Result<
        T,
        String,
    >)
        requires
            router_wf(old(self)@),
            forall|d: &mut VirtualDevice| device_wf((*d)@) ==> #[trigger] f.requires((d,)),
        ensures
            match device_pos(old(self)@.devices, id@) {
                None => final(self)@ == old(self)@ && (r matches Err(e) && e@ == unknown_device_error(id@)),
                Some(k) => {
                    &&& final(self)@.devices == old(self)@.devices.update(k, final(self)@.devices[k])
                    &&& final(self)@.next_id == old(self)@.next_id
                    &&& final(self)@.endpoints == old(self)@.endpoints
                    &&& exists|d: &mut VirtualDevice| *d == old(self).devices@[k] && *final(d) == final(self).devices@[k] && #[trigger] f.ensures((d,), r)
                },
            },
    {
        match self.device_index(id) {
            Ok(k) => {
                proof {
                    assert(self@.devices[k as int] == self.devices@[k as int]@);
                }
                let d = &mut self.devices[k];
                f(d)
            },
            Err(e) => Err(e),
        }
    }

    pub fn rename_device(&mut self, id: &str, name: String) -> (r: Result<(), String>)
        requires
            router_wf(old(self)@),
        ensures
            router_wf(final(self)@),
            final(self).next_id == old(self).next_id,
            final(self)@.endpoints == old(self)@.endpoints,
            match device_pos(old(self)@.devices, id@) {
                Some(i) => r is Ok && final(self)@.devices == old(self)@.devices.update(
                    i,
                    DeviceView { name: name@, ..old(self)@.devices[i] },
                ),
                None => (r matches Err(e) && e@ == unknown_device_error(id@)) && final(self)@.devices
                    == old(self)@.devices,
            },
    {
        proof {
            lemma_device_from_found(self@.devices, id@, 0);
        }
        match self.device_index(id) {
            Ok(i) => {
                let ghost old_devs = self@.devices;
                let ghost nv = name@;
                let mut d = self.devices.remove(i);
                d.name = name;
                self.devices.insert(i, d);
                assert(self@.devices =~= old_devs.update(i as int, DeviceView { name: nv, ..old_devs[i as int] }));
                proof {
                    assert(self@.endpoints =~= old(self)@.endpoints);
                    assert forall|a: int| 0 <= a < self@.devices.len() implies issued_id(
                        #[trigger] self@.devices[a].id,
                        self.next_id as nat,
                    ) && device_wf(self@.devices[a]) by {
                        assert(self@.devices[a].id == old_devs[a].id);
                        assert(device_wf(old_devs[a]));
                    }
                    assert forall|a: int, b: int| 0 <= a < b < self@.devices.len() implies self@.devices[a].id
                        != self@.devices[b].id by {
                        assert(self@.devices[a].id == old_devs[a].id);
                        assert(self@.devices[b].id == old_devs[b].id);
                    }
                }
                Ok(())
            },
            Err(e) => Err(e),
        }
    }

    /// Takes the next counter value for a new system endpoint and returns
    /// its suffix `ep<n>`.
    pub fn next_endpoint_suffix(&mut self) -> (s: String)
        requires
            router_wf(old(self)@),
            old(self).next_id < u32::MAX,
        ensures
            router_wf(final(self)@),
            final(self).next_id == old(self).next_id + 1,
            final(self)@.devices == old(self)@.devices,
            final(self)@.endpoints == old(self)@.endpoints,
            s@ == endpoint_suffix_for(old(self).next_id as nat + 1),
    {
        self.next_id = self.next_id + 1;
        let digits = decimal_string(self.next_id as u64);
        let mut s = String::from_str("ep");
        s.append(digits.as_str());
        proof {
            assert(self@.devices =~= old(self)@.devices);
            assert(self@.endpoints =~= old(self)@.endpoints);
            assert forall|a: int| 0 <= a < self@.devices.len() implies issued_id(
                #[trigger] self@.devices[a].id,
                self.next_id as nat,
            ) by {
                lemma_issued_id_mono(old(self)@.devices[a].id, old(self).next_id as nat, self.next_id as nat);
            }
        }
        s
    }

    /// Records a created system endpoint (an id already present is kept once).
    pub fn add_endpoint(&mut self, instance_id: String)
        requires
            router_wf(old(self)@),
        ensures
            router_wf(final(self)@),
            final(self)@.devices == old(self)@.devices,
            final(self).next_id == old(self).next_id,
            final(self)@.endpoints == if old(self)@.endpoints.contains(instance_id@) {
                old(self)@.endpoints
            } else {
                old(self)@.endpoints.push(instance_id@)
            },
    {
        let mut i: usize = 0;
        while i < self.endpoints.len()
            invariant
                i <= self.endpoints@.len(),
                *self == *old(self),
                router_wf(self@),
                forall|j: int| 0 <= j < i ==> self@.endpoints[j] != instance_id@,
            decreases self.endpoints@.len() - i,
        {
            if str_equal(self.endpoints[i].as_str(), instance_id.as_str()) {
                assert(self@.endpoints[i as int] == instance_id@);
                return;
            }
            i = i + 1;
        }
        let ghost v = instance_id@;
        let ghost old_es = self@.endpoints;
        let ghost old_ds = self@.devices;
        self.endpoints.push(instance_id);
        proof {
            assert(self@.devices =~= old_ds);
            assert(self@.endpoints =~= old_es.push(v));
            assert(!old_es.contains(v));
            assert forall|a: int, b: int| 0 <= a < b < self@.endpoints.len() implies self@.endpoints[a]
                != self@.endpoints[b] by {
                if b == old_es.len() {
                    assert(self@.endpoints[a] == old_es[a]);
                } else {
                    assert(self@.endpoints[a] == old_es[a]);
                    assert(self@.endpoints[b] == old_es[b]);
                }
            }
        }
    }

    /// Forgets system endpoint `instance_id`.
    pub fn remove_endpoint(&mut self, instance_id: &str)
        requires
            router_wf(old(self)@),
        ensures
            router_wf(final(self)@),
            final(self)@.devices == old(self)@.devices,
            final(self).next_id == old(self).next_id,
            final(self)@.endpoints == match endpoint_from(old(self)@.endpoints, instance_id@, 0) {
                Some(i) => old(self)@.endpoints.remove(i),
                None => old(self)@.endpoints,
            },
    {
        let mut i: usize = 0;
        while i < self.endpoints.len()
            invariant
                i <= self.endpoints@.len(),
                *self == *old(self),
                router_wf(self@),
                endpoint_from(self@.endpoints, instance_id@, 0) == endpoint_from(self@.endpoints, instance_id@, i as int),
            decreases self.endpoints@.len() - i,
        {
            if str_equal(self.endpoints[i].as_str(), instance_id) {
                let ghost old_es = self@.endpoints;
                let ghost old_ds = self@.devices;
                self.endpoints.remove(i);
                proof {
                    assert(self@.devices =~= old_ds);
                    assert(self@.endpoints =~= old_es.remove(i as int));
                    assert forall|a: int, b: int| 0 <= a < b < self@.endpoints.len() implies self@.endpoints[a]
                        != self@.endpoints[b] by {
                        let a0 = if a < i { a } else { a + 1 };
                        let b0 = if b < i { b } else { b + 1 };
                        assert(self@.endpoints[a] == old_es[a0]);
                        assert(self@.endpoints[b] == old_es[b0]);
                    }
                }
                return;
            }
            i = i + 1;
        }
    }

    /// The ids of the system endpoints.
    pub fn list_endpoints(&self) -> (r: Vec<String>)
        ensures
            string_views(r@) == self@.endpoints,
    {
        let mut r: Vec<String> = Vec::new();
        let mut i: usize = 0;
        while i < self.endpoints.len()
            invariant
                i <= self.endpoints@.len(),
                string_views(r@) == self@.endpoints.subrange(0, i as int),
            decreases self.endpoints@.len() - i,
        {
            let ghost prev = r@;
            assert(string_views(prev).len() == i);
            r.push(self.endpoints[i].clone());
            proof {
                assert(r@ == prev.push(self.endpoints@[i as int]));
                assert forall|k: int| 0 <= k < i + 1 implies string_views(r@)[k] == self@.endpoints[k] by {
                    if k < i {
                        assert(r@[k] == prev[k]);
                        assert(string_views(prev)[k] == self@.endpoints.subrange(0, i as int)[k]);
                    }
                }
                assert(string_views(r@) =~= self@.endpoints.subrange(0, i + 1));
            }
            i = i + 1;
        }
        assert(self@.endpoints.subrange(0, i as int) =~= self@.endpoints);
        r
    }
}

} // verus!
