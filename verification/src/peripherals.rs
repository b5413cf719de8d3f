//! The peripheral listing query: for a net space (the SoC's, or one
//! device's own), the mapping from each offered peripheral to the devices
//! consuming it, with their status. The mapping is a presence lookup:
//! entry names and consumer names are unique, and membership is
//! characterised exactly; the order of entries is not part of the
//! contract.

use vstd::prelude::*;

use crate::lookup::{contains_string, device_connected, fn_peripheral, status_of};
use crate::model::{
    App, AppView, Board, Device, DeviceStatus, DeviceView, Function, FunctionView, Net, NetView,
    Soc, str_eq,
};
use crate::queries::{Consumer, ConsumerView};
use crate::topology::{device_nets_spec, soc_nets_spec};

verus! {

/// One peripheral offered by a net space, with the devices consuming it.
#[derive(Debug, PartialEq, Eq)]
pub struct PeripheralEntry {
    /// Name of the peripheral, e.g. `uart0`, `gpio`.
    pub name: String,
    /// The devices consuming the peripheral somewhere in the net space,
    /// each named once, with its status.
    pub consumers: Vec<Consumer>,
}

/// Spec-level shape of a [`PeripheralEntry`].
pub struct PeripheralEntryView {
    pub name: Seq<char>,
    pub consumers: Seq<ConsumerView>,
}

impl View for PeripheralEntry {
    type V = PeripheralEntryView;

    open spec fn view(&self) -> PeripheralEntryView {
        PeripheralEntryView { name: self.name@, consumers: self.consumers.deep_view() }
    }
}

impl DeepView for PeripheralEntry {
    type V = PeripheralEntryView;

    open spec fn deep_view(&self) -> PeripheralEntryView {
        self.view()
    }
}

/// Whether some function in the net space belongs to peripheral `p`.
pub open spec fn space_offers(nets: Seq<(NetView, Seq<FunctionView>)>, p: Seq<char>) -> bool {
    exists|a: int, b: int|
        0 <= a < nets.len() && 0 <= b < nets[a].1.len() && #[trigger] fn_peripheral(nets[a].1[b])
            == p
}

/// `space_offers`, restricted to pinmux positions before `(i, j)` in
/// lexicographic scan order.
pub open spec fn space_offers_upto(
    nets: Seq<(NetView, Seq<FunctionView>)>,
    p: Seq<char>,
    i: int,
    j: int,
) -> bool {
    exists|a: int, b: int|
        0 <= a < nets.len() && 0 <= b < nets[a].1.len() && (a < i || (a == i && b < j))
            && #[trigger] fn_peripheral(nets[a].1[b]) == p
}

/// Whether the device named `dev` consumes peripheral `p` somewhere in the
/// net space: some net offers a function of `p` and some device named
/// `dev` is connected to that net with that peripheral.
pub open spec fn space_consumer(
    nets: Seq<(NetView, Seq<FunctionView>)>,
    devs: Seq<DeviceView>,
    p: Seq<char>,
    dev: Seq<char>,
) -> bool {
    exists|a: int, b: int, k: int|
        #![trigger fn_peripheral(nets[a].1[b]), devs[k]]
        0 <= a < nets.len() && 0 <= b < nets[a].1.len() && 0 <= k < devs.len() && fn_peripheral(
            nets[a].1[b],
        ) == p && devs[k].name == dev && device_connected(devs[k], nets[a].0, nets[a].1[b])
}

/// `space_consumer`, restricted to pinmux positions before `(i, j)` in
/// lexicographic scan order.
pub open spec fn space_consumer_upto(
    nets: Seq<(NetView, Seq<FunctionView>)>,
    devs: Seq<DeviceView>,
    p: Seq<char>,
    dev: Seq<char>,
    i: int,
    j: int,
) -> bool {
    exists|a: int, b: int, k: int|
        #![trigger fn_peripheral(nets[a].1[b]), devs[k]]
        0 <= a < nets.len() && 0 <= b < nets[a].1.len() && 0 <= k < devs.len() && (a < i || (a == i
            && b < j)) && fn_peripheral(nets[a].1[b]) == p && devs[k].name == dev
            && device_connected(devs[k], nets[a].0, nets[a].1[b])
}

/// Whether the entry list names peripheral `p`.
pub open spec fn has_entry(entries: Seq<PeripheralEntryView>, p: Seq<char>) -> bool {
    exists|x: int| 0 <= x < entries.len() && (#[trigger] entries[x]).name == p
}

/// Whether the consumer list names device `dev`.
pub open spec fn has_consumer(cs: Seq<ConsumerView>, dev: Seq<char>) -> bool {
    exists|y: int| 0 <= y < cs.len() && (#[trigger] cs[y]).device == dev
}

/// A consumer list is correct for peripheral `p` over a net space: device
/// names are unique, a device appears exactly when it consumes `p`
/// somewhere in the space, and every status is the device's status for
/// the app.
pub open spec fn consumers_ok(
    cs: Seq<ConsumerView>,
    nets: Seq<(NetView, Seq<FunctionView>)>,
    devs: Seq<DeviceView>,
    a: AppView,
    p: Seq<char>,
) -> bool {
    &&& forall|y: int, z: int|
        0 <= y < z < cs.len() ==> (#[trigger] cs[y]).device != (#[trigger] cs[z]).device
    &&& forall|dev: Seq<char>| has_consumer(cs, dev) == space_consumer(nets, devs, p, dev)
    &&& forall|y: int|
        0 <= y < cs.len() ==> (#[trigger] cs[y]).status == status_of(a, cs[y].device)
}

/// An entry list is the correct peripheral mapping for a net space:
/// entry names are unique, a peripheral has an entry exactly when the
/// space offers it, and each entry's consumers are correct.
pub open spec fn entries_ok(
    entries: Seq<PeripheralEntryView>,
    nets: Seq<(NetView, Seq<FunctionView>)>,
    devs: Seq<DeviceView>,
    a: AppView,
) -> bool {
    &&& forall|x: int, y: int|
        0 <= x < y < entries.len() ==> (#[trigger] entries[x]).name != (
        #[trigger] entries[y]).name
    &&& forall|p: Seq<char>| has_entry(entries, p) == space_offers(nets, p)
    &&& forall|x: int|
        0 <= x < entries.len() ==> consumers_ok(
            (#[trigger] entries[x]).consumers,
            nets,
            devs,
            a,
            entries[x].name,
        )
}

/// The peripheral mapping is a function of its inputs up to entry order:
/// two correct mappings for the same net space name the same peripherals,
/// and entries of the same name list the same consuming devices.
pub proof fn lemma_peripheral_mapping_determined(
    e1: Seq<PeripheralEntryView>,
    e2: Seq<PeripheralEntryView>,
    nets: Seq<(NetView, Seq<FunctionView>)>,
    devs: Seq<DeviceView>,
    a: AppView,
)
    requires
        entries_ok(e1, nets, devs, a),
        entries_ok(e2, nets, devs, a),
    ensures
        forall|p: Seq<char>| has_entry(e1, p) == has_entry(e2, p),
        forall|x1: int, x2: int, dev: Seq<char>|
            #![trigger e1[x1], e2[x2], has_consumer(e1[x1].consumers, dev)]
            0 <= x1 < e1.len() && 0 <= x2 < e2.len() && e1[x1].name == e2[x2].name ==> has_consumer(
                e1[x1].consumers,
                dev,
            ) == has_consumer(e2[x2].consumers, dev),
{
}

/// The distinct peripheral names offered by a net space, in first
/// appearance order.
fn distinct_peripherals(space: &Vec<(Net, Vec<Function>)>) -> (r: Vec<String>)
    ensures
        forall|x: int, y: int|
            0 <= x < y < r.deep_view().len() ==> r.deep_view()[x] != r.deep_view()[y],
        forall|p: Seq<char>| r.deep_view().contains(p) == space_offers(space.deep_view(), p),
{
    let ghost nets = space.deep_view();
    let mut r: Vec<String> = Vec::new();
    let mut i: usize = 0;
    while i < space.len()
        invariant
            i <= space.len(),
            nets == space.deep_view(),
            nets.len() == space.len(),
            forall|x: int, y: int|
                0 <= x < y < r.deep_view().len() ==> r.deep_view()[x] != r.deep_view()[y],
            forall|p: Seq<char>| r.deep_view().contains(p) == space_offers_upto(nets, p, i as int, 0),
        decreases space.len() - i,
    {
        let pinmux = &space[i].1;
        let ghost fns = nets[i as int].1;
        proof {
            assert(fns == pinmux.deep_view());
        }
        let mut j: usize = 0;
        while j < pinmux.len()
            invariant
                j <= pinmux.len(),
                i < nets.len(),
                nets == space.deep_view(),
                nets.len() == space.len(),
                fns == nets[i as int].1,
                fns.len() == pinmux.len(),
                fns == pinmux.deep_view(),
                forall|x: int, y: int|
                    0 <= x < y < r.deep_view().len() ==> r.deep_view()[x] != r.deep_view()[y],
                forall|p: Seq<char>|
                    r.deep_view().contains(p) == space_offers_upto(nets, p, i as int, j as int),
            decreases pinmux.len() - j,
        {
            let ghost prev = r.deep_view();
            let name = pinmux[j].peripheral();
            let ghost p0 = fn_peripheral(fns[j as int]);
            proof {
                assert(name@ == p0);
            }
            let dup = contains_string(&r, name);
            if !dup {
                r.push(name.to_owned());
                proof {
                    assert(r.deep_view() =~= prev.push(p0));
                }
            }
            proof {
                let cur = r.deep_view();
                if !dup {
                    assert forall|x: int, y: int|
                        0 <= x < y < cur.len() implies cur[x] != cur[y] by {
                        if y == prev.len() {
                            assert(cur[x] == prev[x]);
                            if prev[x] == p0 {
                                assert(prev.contains(p0));
                            }
                        }
                    }
                }
                assert forall|p: Seq<char>|
                    cur.contains(p) == space_offers_upto(nets, p, i as int, j + 1) by {
                    if cur.contains(p) {
                        let w = choose|w: int| 0 <= w < cur.len() && #[trigger] cur[w] == p;
                        if w < prev.len() {
                            assert(prev[w] == p);
                            assert(prev.contains(p));
                            assert(space_offers_upto(nets, p, i as int, j as int));
                            let (a, b) = choose|a: int, b: int|
                                0 <= a < nets.len() && 0 <= b < nets[a].1.len() && (a < i as int
                                    || (a == i as int && b < j as int))
                                    && #[trigger] fn_peripheral(nets[a].1[b]) == p;
                            assert(space_offers_upto(nets, p, i as int, j + 1));
                        } else {
                            assert(p == p0);
                            assert(fn_peripheral(nets[i as int].1[j as int]) == p);
                            assert(space_offers_upto(nets, p, i as int, j + 1));
                        }
                    }
                    if space_offers_upto(nets, p, i as int, j + 1) {
                        let (a, b) = choose|a: int, b: int|
                            0 <= a < nets.len() && 0 <= b < nets[a].1.len() && (a < i as int || (a
                                == i as int && b < j + 1)) && #[trigger] fn_peripheral(nets[a].1[b])
                                == p;
                        if a < i as int || b < j as int {
                            assert(space_offers_upto(nets, p, i as int, j as int));
                            assert(prev.contains(p));
                            let u = choose|u: int| 0 <= u < prev.len() && #[trigger] prev[u] == p;
                            assert(cur[u] == p);
                            assert(cur.contains(p));
                        } else {
                            assert(p == p0);
                            if dup {
                                assert(prev.contains(p));
                                let u = choose|u: int|
                                    0 <= u < prev.len() && #[trigger] prev[u] == p;
                                assert(cur[u] == p);
                            } else {
                                assert(cur[prev.len() as int] == p);
                            }
                            assert(cur.contains(p));
                        }
                    }
                }
            }
            j += 1;
        }
        proof {
            assert forall|p: Seq<char>|
                space_offers_upto(nets, p, i as int, pinmux.len() as int) == space_offers_upto(
                    nets,
                    p,
                    i + 1,
                    0,
                ) by {
                if space_offers_upto(nets, p, i as int, pinmux.len() as int) {
                    let (a, b) = choose|a: int, b: int|
                        0 <= a < nets.len() && 0 <= b < nets[a].1.len() && (a < i as int || (a == i
                            as int && b < pinmux.len())) && #[trigger] fn_peripheral(nets[a].1[b])
                            == p;
                    assert(space_offers_upto(nets, p, i + 1, 0));
                }
                if space_offers_upto(nets, p, i + 1, 0) {
                    let (a, b) = choose|a: int, b: int|
                        0 <= a < nets.len() && 0 <= b < nets[a].1.len() && (a < i + 1 || (a == i + 1
                            && b < 0)) && #[trigger] fn_peripheral(nets[a].1[b]) == p;
                    if a == i as int {
                        assert(b < fns.len());
                        assert(space_offers_upto(nets, p, i as int, pinmux.len() as int));
                    } else {
                        assert(space_offers_upto(nets, p, i as int, pinmux.len() as int));
                    }
                }
            }
        }
        i += 1;
    }
    proof {
        assert forall|p: Seq<char>|
            space_offers_upto(nets, p, nets.len() as int, 0) == space_offers(nets, p) by {
            if space_offers_upto(nets, p, nets.len() as int, 0) {
                let (a, b) = choose|a: int, b: int|
                    0 <= a < nets.len() && 0 <= b < nets[a].1.len() && (a < nets.len() || (a
                        == nets.len() && b < 0)) && #[trigger] fn_peripheral(nets[a].1[b]) == p;
                assert(space_offers(nets, p));
            }
            if space_offers(nets, p) {
                let (a, b) = choose|a: int, b: int|
                    0 <= a < nets.len() && 0 <= b < nets[a].1.len() && #[trigger] fn_peripheral(
                        nets[a].1[b],
                    ) == p;
                assert(space_offers_upto(nets, p, nets.len() as int, 0));
            }
        }
    }
    r
}

/// Whether some consumer of `v` names the device `s`.
fn contains_consumer(v: &Vec<Consumer>, s: &str) -> (r: bool)
    ensures
        r == has_consumer(v.deep_view(), s@),
{
    let mut i: usize = 0;
    while i < v.len()
        invariant
            i <= v.len(),
            v.deep_view().len() == v.len(),
            forall|j: int| 0 <= j < i ==> (#[trigger] v.deep_view()[j]).device != s@,
        decreases v.len() - i,
    {
        if str_eq(v[i].device.as_str(), s) {
            assert((v.deep_view()[i as int]).device == s@);
            return true;
        }
        i += 1;
    }
    false
}

/// The devices consuming peripheral `p` anywhere in the net space, each
/// named once, with its status.
fn consumers_for(space: &Vec<(Net, Vec<Function>)>, devices: &Vec<Device>, app: &App, p: &str) -> (r:
    Vec<Consumer>)
    ensures
        consumers_ok(r.deep_view(), space.deep_view(), devices.deep_view(), app@, p@),
{
    let ghost nets = space.deep_view();
    let ghost devs = devices.deep_view();
    let mut r: Vec<Consumer> = Vec::new();
    let mut i: usize = 0;
    while i < space.len()
        invariant
            i <= space.len(),
            nets == space.deep_view(),
            nets.len() == space.len(),
            devs == devices.deep_view(),
            devs.len() == devices.len(),
            forall|y: int, z: int|
                0 <= y < z < r.deep_view().len() ==> (#[trigger] r.deep_view()[y]).device != (
                #[trigger] r.deep_view()[z]).device,
            forall|y: int|
                0 <= y < r.deep_view().len() ==> (#[trigger] r.deep_view()[y]).status == status_of(
                    app@,
                    r.deep_view()[y].device,
                ),
            forall|dev: Seq<char>|
                has_consumer(r.deep_view(), dev) == space_consumer_upto(
                    nets,
                    devs,
                    p@,
                    dev,
                    i as int,
                    0,
                ),
        decreases space.len() - i,
    {
        let pinmux = &space[i].1;
        let ghost fns = nets[i as int].1;
        proof {
            assert(fns == pinmux.deep_view());
        }
        let mut j: usize = 0;
        while j < pinmux.len()
            invariant
                j <= pinmux.len(),
                i < nets.len(),
                nets == space.deep_view(),
                nets.len() == space.len(),
                devs == devices.deep_view(),
                devs.len() == devices.len(),
                fns == nets[i as int].1,
                fns.len() == pinmux.len(),
                fns == pinmux.deep_view(),
                forall|y: int, z: int|
                    0 <= y < z < r.deep_view().len() ==> (#[trigger] r.deep_view()[y]).device != (
                    #[trigger] r.deep_view()[z]).device,
                forall|y: int|
                    0 <= y < r.deep_view().len() ==> (#[trigger] r.deep_view()[y]).status
                        == status_of(app@, r.deep_view()[y].device),
                forall|dev: Seq<char>|
                    has_consumer(r.deep_view(), dev) == space_consumer_upto(
                        nets,
                        devs,
                        p@,
                        dev,
                        i as int,
                        j as int,
                    ),
            decreases pinmux.len() - j,
        {
            if pinmux[j].is(p) {
                proof {
                    assert(fn_peripheral(fns[j as int]) == p@);
                }
                let mut k: usize = 0;
                while k < devices.len()
                    invariant
                        k <= devices.len(),
                        i < nets.len(),
                        j < fns.len(),
                        nets == space.deep_view(),
                        nets.len() == space.len(),
                        devs == devices.deep_view(),
                        devs.len() == devices.len(),
                        fns == nets[i as int].1,
                        fns.len() == pinmux.len(),
                        fns == pinmux.deep_view(),
                        fn_peripheral(fns[j as int]) == p@,
                        forall|y: int, z: int|
                            0 <= y < z < r.deep_view().len() ==> (
                            #[trigger] r.deep_view()[y]).device != (
                            #[trigger] r.deep_view()[z]).device,
                        forall|y: int|
                            0 <= y < r.deep_view().len() ==> (#[trigger] r.deep_view()[y]).status
                                == status_of(app@, r.deep_view()[y].device),
                        forall|dev: Seq<char>|
                            has_consumer(r.deep_view(), dev) == (space_consumer_upto(
                                nets,
                                devs,
                                p@,
                                dev,
                                i as int,
                                j as int,
                            ) || exists|k2: int|
                                0 <= k2 < k && (#[trigger] devs[k2]).name == dev
                                    && device_connected(
                                    devs[k2],
                                    nets[i as int].0,
                                    fns[j as int],
                                )),
                    decreases devices.len() - k,
                {
                    let ghost prev = r.deep_view();
                    if devices[k].connected(&space[i].0, &pinmux[j]) {
                        let dname = &devices[k].name;
                        let dup = contains_consumer(&r, dname.as_str());
                        if !dup {
                            let status = app.status(dname.as_str());
                            r.push(Consumer { device: dname.clone(), status });
                            proof {
                                assert(r.deep_view() =~= prev.push(
                                    r.deep_view()[prev.len() as int],
                                ));
                                assert((r.deep_view()[prev.len() as int]).device == devs[k as int].name);
                            }
                        }
                    }
                    proof {
                        let cur = r.deep_view();
                        let connected_here = device_connected(
                            devs[k as int],
                            nets[i as int].0,
                            fns[j as int],
                        );
                        assert forall|y: int, z: int|
                            0 <= y < z < cur.len() implies (#[trigger] cur[y]).device != (
                        #[trigger] cur[z]).device by {
                            if z == prev.len() {
                                assert(cur[y] == prev[y]);
                                if prev[y].device == cur[z].device {
                                    assert(has_consumer(prev, cur[z].device));
                                }
                            }
                        }
                        assert forall|dev: Seq<char>|
                            has_consumer(cur, dev) == (space_consumer_upto(
                                nets,
                                devs,
                                p@,
                                dev,
                                i as int,
                                j as int,
                            ) || exists|k2: int|
                                0 <= k2 < k + 1 && (#[trigger] devs[k2]).name == dev
                                    && device_connected(
                                    devs[k2],
                                    nets[i as int].0,
                                    fns[j as int],
                                )) by {
                            if has_consumer(cur, dev) {
                                let w = choose|w: int|
                                    0 <= w < cur.len() && (#[trigger] cur[w]).device == dev;
                                if w < prev.len() {
                                    assert(prev[w].device == dev);
                                    assert(has_consumer(prev, dev));
                                } else {
                                    assert(dev == devs[k as int].name);
                                    assert(connected_here);
                                }
                            }
                            if space_consumer_upto(nets, devs, p@, dev, i as int, j as int) {
                                assert(has_consumer(prev, dev));
                                let u = choose|u: int|
                                    0 <= u < prev.len() && (#[trigger] prev[u]).device == dev;
                                assert(cur[u].device == dev);
                                assert(has_consumer(cur, dev));
                            }
                            if exists|k2: int|
                                0 <= k2 < k + 1 && (#[trigger] devs[k2]).name == dev
                                    && device_connected(
                                    devs[k2],
                                    nets[i as int].0,
                                    fns[j as int],
                                ) {
                                let k2 = choose|k2: int|
                                    0 <= k2 < k + 1 && (#[trigger] devs[k2]).name == dev
                                        && device_connected(
                                        devs[k2],
                                        nets[i as int].0,
                                        fns[j as int],
                                    );
                                if k2 < k {
                                    assert(has_consumer(prev, dev));
                                    let u = choose|u: int|
                                        0 <= u < prev.len() && (#[trigger] prev[u]).device == dev;
                                    assert(cur[u].device == dev);
                                    assert(has_consumer(cur, dev));
                                } else {
                                    assert(dev == devs[k as int].name);
                                    assert(connected_here);
                                    if has_consumer(prev, dev) {
                                        let u = choose|u: int|
                                            0 <= u < prev.len() && (#[trigger] prev[u]).device
                                                == dev;
                                        assert(cur[u].device == dev);
                                        assert(has_consumer(cur, dev));
                                    } else {
                                        assert(cur[prev.len() as int].device == dev);
                                        assert(has_consumer(cur, dev));
                                    }
                                }
                            }
                        }
                    }
                    k += 1;
                }
                proof {
                    assert forall|dev: Seq<char>|
                        (space_consumer_upto(nets, devs, p@, dev, i as int, j as int) || exists|
                            k2: int,
                        |
                            0 <= k2 < devs.len() && (#[trigger] devs[k2]).name == dev
                                && device_connected(devs[k2], nets[i as int].0, fns[j as int]))
                            == space_consumer_upto(nets, devs, p@, dev, i as int, j + 1) by {
                        if space_consumer_upto(nets, devs, p@, dev, i as int, j as int) {
                            let (a, b, k2) = choose|a: int, b: int, k2: int|
                                #![trigger fn_peripheral(nets[a].1[b]), devs[k2]]
                                0 <= a < nets.len() && 0 <= b < nets[a].1.len() && 0 <= k2
                                    < devs.len() && (a < i as int || (a == i as int && b < j as int))
                                    && fn_peripheral(nets[a].1[b]) == p@ && devs[k2].name == dev
                                    && device_connected(devs[k2], nets[a].0, nets[a].1[b]);
                            assert(space_consumer_upto(nets, devs, p@, dev, i as int, j + 1));
                        }
                        if exists|k2: int|
                            0 <= k2 < devs.len() && (#[trigger] devs[k2]).name == dev
                                && device_connected(devs[k2], nets[i as int].0, fns[j as int]) {
                            let k2 = choose|k2: int|
                                0 <= k2 < devs.len() && (#[trigger] devs[k2]).name == dev
                                    && device_connected(devs[k2], nets[i as int].0, fns[j as int]);
                            assert(fn_peripheral(nets[i as int].1[j as int]) == p@);
                            assert(space_consumer_upto(nets, devs, p@, dev, i as int, j + 1));
                        }
                        if space_consumer_upto(nets, devs, p@, dev, i as int, j + 1) {
                            let (a, b, k2) = choose|a: int, b: int, k2: int|
                                #![trigger fn_peripheral(nets[a].1[b]), devs[k2]]
                                0 <= a < nets.len() && 0 <= b < nets[a].1.len() && 0 <= k2
                                    < devs.len() && (a < i as int || (a == i as int && b < j + 1))
                                    && fn_peripheral(nets[a].1[b]) == p@ && devs[k2].name == dev
                                    && device_connected(devs[k2], nets[a].0, nets[a].1[b]);
                            if a < i as int || b < j as int {
                                assert(space_consumer_upto(nets, devs, p@, dev, i as int, j as int));
                            } else {
                                assert(device_connected(devs[k2], nets[i as int].0, fns[j as int]));
                            }
                        }
                    }
                }
            } else {
                proof {
                    assert(fn_peripheral(fns[j as int]) != p@);
                    assert forall|dev: Seq<char>|
                        space_consumer_upto(nets, devs, p@, dev, i as int, j + 1)
                            == space_consumer_upto(nets, devs, p@, dev, i as int, j as int) by {
                        if space_consumer_upto(nets, devs, p@, dev, i as int, j + 1) {
                            let (a, b, k2) = choose|a: int, b: int, k2: int|
                                #![trigger fn_peripheral(nets[a].1[b]), devs[k2]]
                                0 <= a < nets.len() && 0 <= b < nets[a].1.len() && 0 <= k2
                                    < devs.len() && (a < i as int || (a == i as int && b < j + 1))
                                    && fn_peripheral(nets[a].1[b]) == p@ && devs[k2].name == dev
                                    && device_connected(devs[k2], nets[a].0, nets[a].1[b]);
                            if a == i as int && b == j as int {
                                assert(fn_peripheral(fns[j as int]) == p@);
                            }
                            assert(space_consumer_upto(nets, devs, p@, dev, i as int, j as int));
                        }
                        if space_consumer_upto(nets, devs, p@, dev, i as int, j as int) {
                            let (a, b, k2) = choose|a: int, b: int, k2: int|
                                #![trigger fn_peripheral(nets[a].1[b]), devs[k2]]
                                0 <= a < nets.len() && 0 <= b < nets[a].1.len() && 0 <= k2
                                    < devs.len() && (a < i as int || (a == i as int && b < j as int))
                                    && fn_peripheral(nets[a].1[b]) == p@ && devs[k2].name == dev
                                    && device_connected(devs[k2], nets[a].0, nets[a].1[b]);
                            assert(space_consumer_upto(nets, devs, p@, dev, i as int, j + 1));
                        }
                    }
                }
            }
            j += 1;
        }
        proof {
            assert forall|dev: Seq<char>|
                space_consumer_upto(nets, devs, p@, dev, i as int, pinmux.len() as int)
                    == space_consumer_upto(nets, devs, p@, dev, i + 1, 0) by {
                if space_consumer_upto(nets, devs, p@, dev, i as int, pinmux.len() as int) {
                    let (a, b, k2) = choose|a: int, b: int, k2: int|
                        #![trigger fn_peripheral(nets[a].1[b]), devs[k2]]
                        0 <= a < nets.len() && 0 <= b < nets[a].1.len() && 0 <= k2 < devs.len() && (
                        a < i as int || (a == i as int && b < pinmux.len())) && fn_peripheral(
                            nets[a].1[b],
                        ) == p@ && devs[k2].name == dev && device_connected(
                            devs[k2],
                            nets[a].0,
                            nets[a].1[b],
                        );
                    assert(space_consumer_upto(nets, devs, p@, dev, i + 1, 0));
                }
                if space_consumer_upto(nets, devs, p@, dev, i + 1, 0) {
                    let (a, b, k2) = choose|a: int, b: int, k2: int|
                        #![trigger fn_peripheral(nets[a].1[b]), devs[k2]]
                        0 <= a < nets.len() && 0 <= b < nets[a].1.len() && 0 <= k2 < devs.len() && (
                        a < i + 1 || (a == i + 1 && b < 0)) && fn_peripheral(nets[a].1[b]) == p@
                            && devs[k2].name == dev && device_connected(
                            devs[k2],
                            nets[a].0,
                            nets[a].1[b],
                        );
                    if a == i as int {
                        assert(b < fns.len());
                    }
                    assert(space_consumer_upto(nets, devs, p@, dev, i as int, pinmux.len() as int));
                }
            }
        }
        i += 1;
    }
    proof {
        assert forall|dev: Seq<char>|
            space_consumer_upto(nets, devs, p@, dev, nets.len() as int, 0) == space_consumer(
                nets,
                devs,
                p@,
                dev,
            ) by {
            if space_consumer_upto(nets, devs, p@, dev, nets.len() as int, 0) {
                let (a, b, k2) = choose|a: int, b: int, k2: int|
                    #![trigger fn_peripheral(nets[a].1[b]), devs[k2]]
                    0 <= a < nets.len() && 0 <= b < nets[a].1.len() && 0 <= k2 < devs.len() && (a
                        < nets.len() || (a == nets.len() && b < 0)) && fn_peripheral(nets[a].1[b])
                        == p@ && devs[k2].name == dev && device_connected(
                        devs[k2],
                        nets[a].0,
                        nets[a].1[b],
                    );
                assert(space_consumer(nets, devs, p@, dev));
            }
            if space_consumer(nets, devs, p@, dev) {
                let (a, b, k2) = choose|a: int, b: int, k2: int|
                    #![trigger fn_peripheral(nets[a].1[b]), devs[k2]]
                    0 <= a < nets.len() && 0 <= b < nets[a].1.len() && 0 <= k2 < devs.len()
                        && fn_peripheral(nets[a].1[b]) == p@ && devs[k2].name == dev
                        && device_connected(devs[k2], nets[a].0, nets[a].1[b]);
                assert(space_consumer_upto(nets, devs, p@, dev, nets.len() as int, 0));
            }
        }
    }
    r
}

/// The peripheral mapping of a net space: one entry per offered
/// peripheral, each with the devices consuming it and their status.
pub fn peripheral_entries(space: &Vec<(Net, Vec<Function>)>, devices: &Vec<Device>, app: &App) -> (r:
    Vec<PeripheralEntry>)
    ensures
        entries_ok(r.deep_view(), space.deep_view(), devices.deep_view(), app@),
{
    let ghost nets = space.deep_view();
    let ghost devs = devices.deep_view();
    let names = distinct_peripherals(space);
    let ghost namesv = names.deep_view();
    let mut r: Vec<PeripheralEntry> = Vec::new();
    let mut i: usize = 0;
    while i < names.len()
        invariant
            i <= names.len(),
            nets == space.deep_view(),
            devs == devices.deep_view(),
            namesv == names.deep_view(),
            namesv.len() == names.len(),
            forall|x: int, y: int| 0 <= x < y < namesv.len() ==> namesv[x] != namesv[y],
            forall|p: Seq<char>| namesv.contains(p) == space_offers(nets, p),
            r.deep_view().len() == i,
            forall|x: int| 0 <= x < i ==> (#[trigger] r.deep_view()[x]).name == namesv[x],
            forall|x: int|
                0 <= x < i ==> consumers_ok(
                    (#[trigger] r.deep_view()[x]).consumers,
                    nets,
                    devs,
                    app@,
                    r.deep_view()[x].name,
                ),
        decreases names.len() - i,
    {
        let ghost prev = r.deep_view();
        let consumers = consumers_for(space, devices, app, names[i].as_str());
        r.push(PeripheralEntry { name: names[i].clone(), consumers });
        proof {
            assert(r.deep_view() =~= prev.push(r.deep_view()[i as int]));
            assert((r.deep_view()[i as int]).name == namesv[i as int]);
        }
        i += 1;
    }
    proof {
        let entries = r.deep_view();
        assert forall|p: Seq<char>| has_entry(entries, p) == space_offers(nets, p) by {
            if has_entry(entries, p) {
                let x = choose|x: int|
                    0 <= x < entries.len() && (#[trigger] entries[x]).name == p;
                assert(namesv[x] == p);
                assert(namesv.contains(p));
            }
            if space_offers(nets, p) {
                assert(namesv.contains(p));
                let u = choose|u: int| 0 <= u < namesv.len() && #[trigger] namesv[u] == p;
                assert((entries[u]).name == p);
                assert(has_entry(entries, p));
            }
        }
    }
    r
}

/// Whether the device exposes any selectable function at all (some pin
/// with a non-empty pinmux); exactly these devices get a section in the
/// peripherals report.
pub open spec fn device_offers_any(d: DeviceView) -> bool {
    exists|i: int| 0 <= i < d.pins.len() && (#[trigger] d.pins[i]).pinmux.len() > 0
}

/// A device's entry list is non-empty exactly when the device exposes
/// some function.
proof fn lemma_entries_nonempty(
    entries: Seq<PeripheralEntryView>,
    d: DeviceView,
    devs: Seq<DeviceView>,
    a: AppView,
)
    requires
        entries_ok(entries, device_nets_spec(d), devs, a),
    ensures
        (entries.len() > 0) == device_offers_any(d),
{
    let nets = device_nets_spec(d);
    if device_offers_any(d) {
        let i = choose|i: int| 0 <= i < d.pins.len() && (#[trigger] d.pins[i]).pinmux.len() > 0;
        assert(nets[i].1 == d.pins[i].pinmux);
        let p = fn_peripheral(nets[i].1[0]);
        assert(space_offers(nets, p));
        assert(has_entry(entries, p));
        let x = choose|x: int| 0 <= x < entries.len() && (#[trigger] entries[x]).name == p;
    }
    if entries.len() > 0 {
        let p = entries[0].name;
        assert(has_entry(entries, p));
        assert(space_offers(nets, p));
        let (a2, b2) = choose|a2: int, b2: int|
            0 <= a2 < nets.len() && 0 <= b2 < nets[a2].1.len() && #[trigger] fn_peripheral(
                nets[a2].1[b2],
            ) == p;
        assert(nets[a2].1 == d.pins[a2].pinmux);
        assert((d.pins[a2]).pinmux.len() > 0);
        assert(device_offers_any(d));
    }
}

/// The devices that get a section in the peripherals report, in board
/// order: those exposing at least one function of their own.
pub open spec fn section_devices(devs: Seq<DeviceView>) -> Seq<DeviceView> {
    devs.filter_map(
        |d: DeviceView| if device_offers_any(d) {
            Some(d)
        } else {
            None
        },
    )
}

/// One step of the device scan for sections.
proof fn lemma_section_devices_step(devs: Seq<DeviceView>, i: int)
    requires
        0 <= i < devs.len(),
    ensures
        section_devices(devs.take(i + 1)) == section_devices(devs.take(i)) + (if device_offers_any(
            devs[i],
        ) {
            seq![devs[i]]
        } else {
            Seq::empty()
        }),
{
    assert(devs.take(i + 1).drop_last() =~= devs.take(i));
    assert(devs.take(i + 1).last() == devs[i]);
    if device_offers_any(devs[i]) {
        assert(section_devices(devs.take(i + 1)) =~= section_devices(devs.take(i)) + seq![
            devs[i],
        ]);
    } else {
        assert(section_devices(devs.take(i + 1)) =~= section_devices(devs.take(i)) + Seq::<
            DeviceView,
        >::empty());
    }
}

/// The peripherals exposed by one device that fans out pins of its own,
/// with the devices consuming them.
#[derive(Debug, PartialEq, Eq)]
pub struct DeviceSection {
    /// Name of the device exposing the peripherals.
    pub device: String,
    /// Used/Free status of that device for the queried app.
    pub status: DeviceStatus,
    /// The peripheral mapping of the device's own net space.
    pub peripherals: Vec<PeripheralEntry>,
}

/// Spec-level shape of a [`DeviceSection`].
pub struct DeviceSectionView {
    pub device: Seq<char>,
    pub status: DeviceStatus,
    pub peripherals: Seq<PeripheralEntryView>,
}

impl View for DeviceSection {
    type V = DeviceSectionView;

    open spec fn view(&self) -> DeviceSectionView {
        DeviceSectionView {
            device: self.device@,
            status: self.status,
            peripherals: self.peripherals.deep_view(),
        }
    }
}

impl DeepView for DeviceSection {
    type V = DeviceSectionView;

    open spec fn deep_view(&self) -> DeviceSectionView {
        self.view()
    }
}

/// The full peripherals report: the mapping rooted at the SoC, and one
/// section per device that itself exposes peripherals.
#[derive(Debug, PartialEq, Eq)]
pub struct PeripheralsReport {
    /// Peripherals offered by the SoC's pins.
    pub soc: Vec<PeripheralEntry>,
    /// Peripherals offered by devices fanning out pins of their own, in
    /// board order; devices exposing nothing are omitted.
    pub sections: Vec<DeviceSection>,
}

/// Lists every peripheral available on the board: those offered by the
/// SoC's pins, and, for each device that exposes pins of its own, those
/// offered by that device. Each peripheral is reported with the devices
/// consuming it anywhere in the respective net space and their status.
pub fn list_peripherals(soc: &Soc, board: &Board, app: &App) -> (r: PeripheralsReport)
    ensures
        entries_ok(r.soc.deep_view(), soc_nets_spec(soc@), board@.devices, app@),
        r.sections.deep_view().len() == section_devices(board@.devices).len(),
        forall|k: int|
            0 <= k < r.sections.deep_view().len() ==> {
                &&& (#[trigger] r.sections.deep_view()[k]).device == section_devices(
                    board@.devices,
                )[k].name
                &&& r.sections.deep_view()[k].status == status_of(
                    app@,
                    section_devices(board@.devices)[k].name,
                )
                &&& entries_ok(
                    r.sections.deep_view()[k].peripherals,
                    device_nets_spec(section_devices(board@.devices)[k]),
                    board@.devices,
                    app@,
                )
            },
{
    let ghost devs = board@.devices;
    let soc_space = soc.nets();
    let soc_entries = peripheral_entries(&soc_space, &board.devices, app);
    let mut sections: Vec<DeviceSection> = Vec::new();
    let mut i: usize = 0;
    proof {
        assert(devs.take(0) =~= Seq::<DeviceView>::empty());
        assert(section_devices(devs.take(0)) =~= Seq::<DeviceView>::empty());
    }
    while i < board.devices.len()
        invariant
            i <= board.devices.len(),
            devs == board@.devices,
            devs.len() == board.devices.len(),
            sections.deep_view().len() == section_devices(devs.take(i as int)).len(),
            forall|k: int|
                0 <= k < sections.deep_view().len() ==> {
                    &&& (#[trigger] sections.deep_view()[k]).device == section_devices(
                        devs.take(i as int),
                    )[k].name
                    &&& sections.deep_view()[k].status == status_of(
                        app@,
                        section_devices(devs.take(i as int))[k].name,
                    )
                    &&& entries_ok(
                        sections.deep_view()[k].peripherals,
                        device_nets_spec(section_devices(devs.take(i as int))[k]),
                        devs,
                        app@,
                    )
                },
        decreases board.devices.len() - i,
    {
        let ghost prev = sections.deep_view();
        let d = &board.devices[i];
        let dspace = d.nets();
        let entries = peripheral_entries(&dspace, &board.devices, app);
        proof {
            lemma_entries_nonempty(entries.deep_view(), devs[i as int], devs, app@);
        }
        if entries.len() > 0 {
            let status = app.status(d.name.as_str());
            sections.push(DeviceSection { device: d.name.clone(), status, peripherals: entries });
            proof {
                assert(sections.deep_view() =~= prev.push(
                    sections.deep_view()[prev.len() as int],
                ));
            }
        }
        proof {
            lemma_section_devices_step(devs, i as int);
            let old_secs = section_devices(devs.take(i as int));
            let new_secs = section_devices(devs.take(i + 1));
            if device_offers_any(devs[i as int]) {
                assert(new_secs =~= old_secs.push(devs[i as int]));
            } else {
                assert(new_secs =~= old_secs);
            }
            assert(forall|k: int| 0 <= k < old_secs.len() ==> new_secs[k] == old_secs[k]);
        }
        i += 1;
    }
    proof {
        assert(devs.take(devs.len() as int) =~= devs);
    }
    PeripheralsReport { soc: soc_entries, sections }
}

} // verus!
