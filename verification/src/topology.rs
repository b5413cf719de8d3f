//! The topology index: the addressable net space of a SoC, of a device
//! that fans out pins of its own, and of a whole board (SoC pins chained
//! with every device's own pins, in declaration order).

use vstd::prelude::*;

use crate::model::{
    Board, BoardView, Device, DeviceView, Function, FunctionView, Net, NetView, PinView, Soc,
    SocView,
};

verus! {

/// The nets a SoC exposes: one direct net per pin, in declaration order,
/// each with the pin's pinmux.
pub open spec fn soc_nets_spec(s: SocView) -> Seq<(NetView, Seq<FunctionView>)> {
    s.pins.map_values(|p: PinView| (NetView::Direct { pin: p.name }, p.pinmux))
}

/// The nets a device exposes through its own pins, in declaration order.
pub open spec fn device_nets_spec(d: DeviceView) -> Seq<(NetView, Seq<FunctionView>)> {
    d.pins.map_values(
        |p: PinView| (NetView::Device { device: d.name, pin: p.name }, p.pinmux),
    )
}

/// The nets of a sequence of devices, chained in order.
pub open spec fn devices_nets_spec(devs: Seq<DeviceView>) -> Seq<(NetView, Seq<FunctionView>)>
    decreases devs.len(),
{
    if devs.len() == 0 {
        Seq::empty()
    } else {
        device_nets_spec(devs.first()) + devices_nets_spec(devs.drop_first())
    }
}

/// The full addressable net space of a board and its SoC: the SoC's nets
/// followed by every device's own nets, in declaration order.
pub open spec fn board_nets_spec(s: SocView, b: BoardView) -> Seq<(NetView, Seq<FunctionView>)> {
    soc_nets_spec(s) + devices_nets_spec(b.devices)
}

/// The pinmux of the first entry for `net` in a net space, if any.
pub open spec fn first_pinmux(
    nets: Seq<(NetView, Seq<FunctionView>)>,
    net: NetView,
) -> Option<Seq<FunctionView>>
    decreases nets.len(),
{
    if nets.len() == 0 {
        None
    } else if nets.first().0 == net {
        Some(nets.first().1)
    } else {
        first_pinmux(nets.drop_first(), net)
    }
}

/// Whether `net` exists anywhere in the combined net space of `s` and `b`.
pub open spec fn net_known(s: SocView, b: BoardView, net: NetView) -> bool {
    first_pinmux(board_nets_spec(s, b), net) is Some
}

/// Appending one device extends the chained net space by that device's
/// nets.
pub proof fn lemma_devices_nets_push(devs: Seq<DeviceView>, d: DeviceView)
    ensures
        devices_nets_spec(devs.push(d)) == devices_nets_spec(devs) + device_nets_spec(d),
    decreases devs.len(),
{
    if devs.len() == 0 {
        assert(devs.push(d).first() == d);
        assert(devs.push(d).drop_first() =~= Seq::<DeviceView>::empty());
        assert(devices_nets_spec(Seq::<DeviceView>::empty()) == Seq::<
            (NetView, Seq<FunctionView>),
        >::empty());
        assert(devices_nets_spec(devs.push(d)) == device_nets_spec(d) + Seq::<
            (NetView, Seq<FunctionView>),
        >::empty());
        assert(device_nets_spec(d) + Seq::<(NetView, Seq<FunctionView>)>::empty()
            =~= devices_nets_spec(devs) + device_nets_spec(d));
    } else {
        assert(devs.push(d).first() == devs.first());
        assert(devs.push(d).drop_first() =~= devs.drop_first().push(d));
        lemma_devices_nets_push(devs.drop_first(), d);
        assert(devices_nets_spec(devs.push(d)) =~= devices_nets_spec(devs) + device_nets_spec(d));
    }
}

impl Soc {
    /// One entry per SoC pin, in declaration order: the direct net for the
    /// pin and the pin's pinmux.
    pub fn nets(&self) -> (r: Vec<(Net, Vec<Function>)>)
        ensures
            r.deep_view() == soc_nets_spec(self@),
    {
        let mut r: Vec<(Net, Vec<Function>)> = Vec::new();
        let mut i: usize = 0;
        while i < self.pins.len()
            invariant
                i <= self.pins.len(),
                self@.pins.len() == self.pins.len(),
                r.deep_view().len() == i,
                forall|j: int| 0 <= j < i ==> r.deep_view()[j] == soc_nets_spec(self@)[j],
            decreases self.pins.len() - i,
        {
            let ghost prev = r.deep_view();
            let p = self.pins[i].clone();
            r.push((Net::Direct { pin: p.name }, p.pinmux));
            proof {
                assert(r.deep_view() =~= prev.push(r.deep_view()[i as int]));
                assert(r.deep_view()[i as int] == soc_nets_spec(self@)[i as int]);
            }
            i += 1;
        }
        proof {
            assert(r.deep_view() =~= soc_nets_spec(self@));
        }
        r
    }
}

impl Device {
    /// One entry per pin the device itself exposes, in declaration order:
    /// the device-qualified net and the pin's pinmux.
    pub fn nets(&self) -> (r: Vec<(Net, Vec<Function>)>)
        ensures
            r.deep_view() == device_nets_spec(self@),
    {
        let mut r: Vec<(Net, Vec<Function>)> = Vec::new();
        let mut i: usize = 0;
        while i < self.pins.len()
            invariant
                i <= self.pins.len(),
                self@.pins.len() == self.pins.len(),
                r.deep_view().len() == i,
                forall|j: int| 0 <= j < i ==> r.deep_view()[j] == device_nets_spec(self@)[j],
            decreases self.pins.len() - i,
        {
            let ghost prev = r.deep_view();
            let p = self.pins[i].clone();
            r.push((Net::Device { device: self.name.clone(), pin: p.name }, p.pinmux));
            proof {
                assert(r.deep_view() =~= prev.push(r.deep_view()[i as int]));
                assert(r.deep_view()[i as int] == device_nets_spec(self@)[i as int]);
            }
            i += 1;
        }
        proof {
            assert(r.deep_view() =~= device_nets_spec(self@));
        }
        r
    }
}

/// The combined net space of the board: the SoC's nets followed by every
/// device's own nets.
pub fn board_nets(soc: &Soc, board: &Board) -> (r: Vec<(Net, Vec<Function>)>)
    ensures
        r.deep_view() == board_nets_spec(soc@, board@),
{
    let mut r = soc.nets();
    let mut i: usize = 0;
    while i < board.devices.len()
        invariant
            i <= board.devices.len(),
            board@.devices.len() == board.devices.len(),
            r.deep_view() == soc_nets_spec(soc@) + devices_nets_spec(board@.devices.take(i as int)),
        decreases board.devices.len() - i,
    {
        let ghost prev = r.deep_view();
        let mut d = board.devices[i].nets();
        let ghost dnets = d.deep_view();
        r.append(&mut d);
        proof {
            assert(r.deep_view() =~= prev + dnets);
            assert(board@.devices.take(i + 1) =~= board@.devices.take(i as int).push(
                board@.devices[i as int],
            ));
            lemma_devices_nets_push(board@.devices.take(i as int), board@.devices[i as int]);
            assert(r.deep_view() =~= soc_nets_spec(soc@) + devices_nets_spec(
                board@.devices.take(i + 1),
            ));
        }
        i += 1;
    }
    proof {
        assert(board@.devices.take(board@.devices.len() as int) =~= board@.devices);
    }
    r
}

/// The pinmux of the first entry for `net` in a net space, if any.
pub fn find_pinmux<'a>(nets: &'a Vec<(Net, Vec<Function>)>, net: &Net) -> (r: Option<
    &'a Vec<Function>,
>)
    ensures
        match r {
            Some(p) => first_pinmux(nets.deep_view(), net@) == Some(p.deep_view()),
            None => first_pinmux(nets.deep_view(), net@) is None,
        },
{
    let ghost space = nets.deep_view();
    proof {
        assert(space.skip(0) =~= space);
    }
    let mut i: usize = 0;
    while i < nets.len()
        invariant
            i <= nets.len(),
            space == nets.deep_view(),
            space.len() == nets.len(),
            first_pinmux(space, net@) == first_pinmux(space.skip(i as int), net@),
        decreases nets.len() - i,
    {
        proof {
            assert(space.skip(i as int).first() == space[i as int]);
            assert(space.skip(i as int).drop_first() =~= space.skip(i + 1));
        }
        if crate::lookup::net_eq(&nets[i].0, net) {
            return Some(&nets[i].1);
        }
        i += 1;
    }
    proof {
        assert(space.skip(space.len() as int) =~= Seq::<(NetView, Seq<FunctionView>)>::empty());
    }
    None
}

} // verus!
