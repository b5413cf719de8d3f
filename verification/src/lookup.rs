//! Device/app resolution primitives: capability accessors on functions,
//! first-match connection lookup on devices, and Used/Free classification
//! of devices relative to an application.

use vstd::prelude::*;

use crate::model::{
    App, AppView, Board, Connection, ConnectionView, Device, DeviceStatus, DeviceView, Function,
    FunctionView, Net, NetView, str_eq,
};

verus! {

/// The peripheral named by a function: its whole name for a simple
/// function, its first component for a peripheral.signal pair.
pub open spec fn fn_peripheral(f: FunctionView) -> Seq<char> {
    match f {
        FunctionView::Simple { name } => name,
        FunctionView::Peripheral { name, signal } => name,
    }
}

/// The signal a function drives, if it names one.
pub open spec fn fn_signal(f: FunctionView) -> Option<Seq<char>> {
    match f {
        FunctionView::Simple { name } => None,
        FunctionView::Peripheral { name, signal } => Some(signal),
    }
}

/// Whether an application declares the named device.
pub open spec fn app_uses(a: AppView, name: Seq<char>) -> bool {
    a.devices.contains(name)
}

/// Used/Free classification of the named device relative to an application.
pub open spec fn status_of(a: AppView, name: Seq<char>) -> DeviceStatus {
    if app_uses(a, name) {
        DeviceStatus::Used
    } else {
        DeviceStatus::Free
    }
}

/// The first connection in declaration order attached to `net`; duplicates
/// are not rejected, the first one wins.
pub open spec fn first_conn_to(conns: Seq<ConnectionView>, net: NetView) -> Option<ConnectionView>
    decreases conns.len(),
{
    if conns.len() == 0 {
        None
    } else if conns.first().net == net {
        Some(conns.first())
    } else {
        first_conn_to(conns.drop_first(), net)
    }
}

/// The device's first connection to `net`, if any.
pub open spec fn conn_to(d: DeviceView, net: NetView) -> Option<ConnectionView> {
    first_conn_to(d.connects, net)
}

/// Whether the device has a connection to `net` whose function names the
/// same peripheral as `f`; the signal plays no part.
pub open spec fn device_connected(d: DeviceView, net: NetView, f: FunctionView) -> bool {
    exists|j: int|
        0 <= j < d.connects.len() && d.connects[j].net == net && fn_peripheral(
            d.connects[j].function,
        ) == fn_peripheral(f)
}

/// Connectivity ignores the signal: two requested functions naming the same
/// peripheral are connected to exactly the same device/net pairs.
pub proof fn lemma_connected_ignores_signal(
    d: DeviceView,
    net: NetView,
    f1: FunctionView,
    f2: FunctionView,
)
    requires
        fn_peripheral(f1) == fn_peripheral(f2),
    ensures
        device_connected(d, net, f1) == device_connected(d, net, f2),
{
}

/// The first device in declaration order bearing `name`.
pub open spec fn find_device(devs: Seq<DeviceView>, name: Seq<char>) -> Option<DeviceView>
    decreases devs.len(),
{
    if devs.len() == 0 {
        None
    } else if devs.first().name == name {
        Some(devs.first())
    } else {
        find_device(devs.drop_first(), name)
    }
}

/// Equality of nets, specified over the views.
pub fn net_eq(a: &Net, b: &Net) -> (r: bool)
    ensures
        r == (a@ == b@),
{
    match (a, b) {
        (Net::Direct { pin: p1 }, Net::Direct { pin: p2 }) => str_eq(p1.as_str(), p2.as_str()),
        (Net::Device { device: d1, pin: p1 }, Net::Device { device: d2, pin: p2 }) => str_eq(
            d1.as_str(),
            d2.as_str(),
        ) && str_eq(p1.as_str(), p2.as_str()),
        _ => false,
    }
}

/// Equality of functions, signal included, specified over the views.
pub fn function_eq(a: &Function, b: &Function) -> (r: bool)
    ensures
        r == (a@ == b@),
{
    match (a, b) {
        (Function::Simple(n1), Function::Simple(n2)) => str_eq(n1.as_str(), n2.as_str()),
        (
            Function::Peripheral { name: n1, signal: s1 },
            Function::Peripheral { name: n2, signal: s2 },
        ) => str_eq(n1.as_str(), n2.as_str()) && str_eq(s1.as_str(), s2.as_str()),
        _ => false,
    }
}

impl Function {
    /// The peripheral name, for both shapes of function.
    pub fn peripheral(&self) -> (r: &str)
        ensures
            r@ == fn_peripheral(self@),
    {
        match self {
            Function::Simple(name) => name.as_str(),
            Function::Peripheral { name, .. } => name.as_str(),
        }
    }

    /// The signal, present only for peripheral.signal functions.
    pub fn signal(&self) -> (r: Option<&str>)
        ensures
            match r {
                Some(s) => fn_signal(self@) == Some(s@),
                None => fn_signal(self@) is None,
            },
    {
        match self {
            Function::Simple(_) => None,
            Function::Peripheral { signal, .. } => Some(signal.as_str()),
        }
    }

    /// Whether this function belongs to the named peripheral; the signal is
    /// ignored.
    pub fn is(&self, peripheral: &str) -> (r: bool)
        ensures
            r == (fn_peripheral(self@) == peripheral@),
    {
        str_eq(self.peripheral(), peripheral)
    }
}

impl App {
    /// Whether the app declares the named device.
    pub fn uses(&self, name: &str) -> (r: bool)
        ensures
            r == app_uses(self@, name@),
    {
        let mut i: usize = 0;
        while i < self.devices.len()
            invariant
                forall|j: int| 0 <= j < i ==> self@.devices[j] != name@,
                i <= self.devices.len(),
                self@.devices.len() == self.devices.len(),
            decreases self.devices.len() - i,
        {
            if str_eq(self.devices[i].as_str(), name) {
                assert(self@.devices[i as int] == name@);
                return true;
            }
            i += 1;
        }
        false
    }

    /// Used/Free classification of the named device for this app.
    pub fn status(&self, name: &str) -> (r: DeviceStatus)
        ensures
            r == status_of(self@, name@),
    {
        if self.uses(name) {
            DeviceStatus::Used
        } else {
            DeviceStatus::Free
        }
    }

    /// The app's device names with duplicates removed: the same names are
    /// present, each exactly once.
    pub fn devices_as_set(&self) -> (r: Vec<String>)
        ensures
            forall|x: Seq<char>| r.deep_view().contains(x) == self@.devices.contains(x),
            forall|i: int, j: int|
                0 <= i < j < r.deep_view().len() ==> r.deep_view()[i] != r.deep_view()[j],
    {
        let mut r: Vec<String> = Vec::new();
        let mut i: usize = 0;
        while i < self.devices.len()
            invariant
                i <= self.devices.len(),
                self@.devices.len() == self.devices.len(),
                forall|x: Seq<char>|
                    r.deep_view().contains(x) == self@.devices.take(i as int).contains(x),
                forall|a: int, b: int|
                    0 <= a < b < r.deep_view().len() ==> r.deep_view()[a] != r.deep_view()[b],
            decreases self.devices.len() - i,
        {
            let ghost prev = r.deep_view();
            let ghost prefix = self@.devices.take(i as int);
            let name = &self.devices[i];
            let dup = contains_string(&r, name.as_str());
            if !dup {
                r.push(name.clone());
                proof {
                    assert(r.deep_view() =~= prev.push(name@));
                }
            }
            proof {
                let cur = r.deep_view();
                let ext = self@.devices.take(i + 1);
                assert(ext =~= prefix.push(self@.devices[i as int]));
                assert(name@ == self@.devices[i as int]);
                assert forall|x: Seq<char>| cur.contains(x) == ext.contains(x) by {
                    if ext.contains(x) {
                        let w = choose|w: int| 0 <= w < ext.len() && #[trigger] ext[w] == x;
                        if w < i {
                            assert(prefix[w] == x);
                            assert(prefix.contains(x));
                            assert(prev.contains(x));
                            let u = choose|u: int| 0 <= u < prev.len() && #[trigger] prev[u] == x;
                            assert(cur[u] == x);
                            assert(cur.contains(x));
                        } else {
                            assert(x == name@);
                            if dup {
                                let u = choose|u: int|
                                    0 <= u < prev.len() && #[trigger] prev[u] == x;
                                assert(cur[u] == x);
                            } else {
                                assert(cur[prev.len() as int] == x);
                            }
                            assert(cur.contains(x));
                        }
                    }
                    if cur.contains(x) {
                        let w = choose|w: int| 0 <= w < cur.len() && #[trigger] cur[w] == x;
                        if w < prev.len() {
                            assert(prev[w] == x);
                            assert(prev.contains(x));
                            assert(prefix.contains(x));
                            let v = choose|v: int|
                                0 <= v < prefix.len() && #[trigger] prefix[v] == x;
                            assert(ext[v] == x);
                            assert(ext.contains(x));
                        } else {
                            assert(x == name@);
                            assert(ext[i as int] == x);
                            assert(ext.contains(x));
                        }
                    }
                }
                if !dup {
                    assert forall|a: int, b: int|
                        0 <= a < b < cur.len() implies cur[a] != cur[b] by {
                        if b == prev.len() {
                            assert(cur[a] == prev[a]);
                            if prev[a] == name@ {
                                assert(prev.contains(name@));
                            }
                        }
                    }
                }
            }
            i += 1;
        }
        proof {
            assert(self@.devices.take(self@.devices.len() as int) =~= self@.devices);
        }
        r
    }
}

/// Whether some element of `v` has the view of `s`.
pub(crate) fn contains_string(v: &Vec<String>, s: &str) -> (r: bool)
    ensures
        r == v.deep_view().contains(s@),
{
    let mut i: usize = 0;
    while i < v.len()
        invariant
            i <= v.len(),
            v.deep_view().len() == v.len(),
            forall|j: int| 0 <= j < i ==> v.deep_view()[j] != s@,
        decreases v.len() - i,
    {
        if str_eq(v[i].as_str(), s) {
            assert(v.deep_view()[i as int] == s@);
            return true;
        }
        i += 1;
    }
    false
}

impl Device {
    /// The first connection in declaration order attached to `net`.
    pub fn connection_to(&self, net: &Net) -> (r: Option<&Connection>)
        ensures
            match r {
                Some(c) => conn_to(self@, net@) == Some(c@),
                None => conn_to(self@, net@) is None,
            },
    {
        let ghost conns = self@.connects;
        proof {
            assert(conns.skip(0) =~= conns);
        }
        let mut i: usize = 0;
        while i < self.connects.len()
            invariant
                i <= self.connects.len(),
                conns == self@.connects,
                conns.len() == self.connects.len(),
                first_conn_to(conns, net@) == first_conn_to(conns.skip(i as int), net@),
            decreases self.connects.len() - i,
        {
            proof {
                assert(conns.skip(i as int).first() == conns[i as int]);
                assert(conns.skip(i as int).drop_first() =~= conns.skip(i + 1));
            }
            if net_eq(&self.connects[i].net, net) {
                return Some(&self.connects[i]);
            }
            i += 1;
        }
        proof {
            assert(conns.skip(conns.len() as int) =~= Seq::<ConnectionView>::empty());
        }
        None
    }

    /// Whether this device is attached to `net` with a function of the same
    /// peripheral as `function`; the signal is ignored on both sides.
    pub fn connected(&self, net: &Net, function: &Function) -> (r: bool)
        ensures
            r == device_connected(self@, net@, function@),
    {
        let mut i: usize = 0;
        while i < self.connects.len()
            invariant
                i <= self.connects.len(),
                self@.connects.len() == self.connects.len(),
                forall|j: int|
                    0 <= j < i ==> !(self@.connects[j].net == net@ && fn_peripheral(
                        self@.connects[j].function,
                    ) == fn_peripheral(function@)),
            decreases self.connects.len() - i,
        {
            let c = &self.connects[i];
            if net_eq(&c.net, net) && c.function.is(function.peripheral()) {
                assert(self@.connects[i as int].net == net@ && fn_peripheral(
                    self@.connects[i as int].function,
                ) == fn_peripheral(function@));
                return true;
            }
            i += 1;
        }
        false
    }
}

impl Board {
    /// Every device of the board in declaration order, each classified
    /// Used or Free for `app`: a device is Used exactly when the app
    /// declares its name.
    pub fn devices_with_status(&self, app: &App) -> (r: Vec<(Device, DeviceStatus)>)
        ensures
            r@.len() == self@.devices.len(),
            forall|i: int|
                0 <= i < r@.len() ==> r@[i].0@ == self@.devices[i] && r@[i].1 == status_of(
                    app@,
                    self@.devices[i].name,
                ),
    {
        let mut r: Vec<(Device, DeviceStatus)> = Vec::new();
        let mut i: usize = 0;
        while i < self.devices.len()
            invariant
                i <= self.devices.len(),
                self@.devices.len() == self.devices.len(),
                r@.len() == i,
                forall|j: int|
                    0 <= j < i ==> r@[j].0@ == self@.devices[j] && r@[j].1 == status_of(
                        app@,
                        self@.devices[j].name,
                    ),
            decreases self.devices.len() - i,
        {
            let device = &self.devices[i];
            let status = app.status(device.name.as_str());
            r.push((device.clone(), status));
            i += 1;
        }
        r
    }

    /// The first device in declaration order bearing `name`.
    pub fn device_by_name(&self, name: &str) -> (r: Option<&Device>)
        ensures
            match r {
                Some(d) => find_device(self@.devices, name@) == Some(d@),
                None => find_device(self@.devices, name@) is None,
            },
    {
        let ghost devs = self@.devices;
        proof {
            assert(devs.skip(0) =~= devs);
        }
        let mut i: usize = 0;
        while i < self.devices.len()
            invariant
                i <= self.devices.len(),
                devs == self@.devices,
                devs.len() == self.devices.len(),
                find_device(devs, name@) == find_device(devs.skip(i as int), name@),
            decreases self.devices.len() - i,
        {
            proof {
                assert(devs.skip(i as int).first() == devs[i as int]);
                assert(devs.skip(i as int).drop_first() =~= devs.skip(i + 1));
            }
            if str_eq(self.devices[i].name.as_str(), name) {
                return Some(&self.devices[i]);
            }
            i += 1;
        }
        proof {
            assert(devs.skip(devs.len() as int) =~= Seq::<DeviceView>::empty());
        }
        None
    }
}

impl DeviceStatus {
    /// The human-readable name of the status.
    pub fn to_string(&self) -> (r: String)
        ensures
            *self is Used ==> r@ == "Used"@,
            *self is Free ==> r@ == "Free"@,
    {
        match self {
            DeviceStatus::Used => "Used".to_owned(),
            DeviceStatus::Free => "Free".to_owned(),
        }
    }
}

} // verus!
