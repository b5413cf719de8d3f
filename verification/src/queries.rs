//! The resolution queries: read-only lookups over an (App, Board, optional
//! Soc) snapshot, answering which devices, pins and peripherals are used,
//! free or connected. Results are structured records for a presentation
//! layer to render; the engine itself produces no text.

use vstd::prelude::*;

use crate::grammar::parse_net_spec;
use crate::lookup::{conn_to, find_device, fn_peripheral, status_of};
use crate::model::{
    App, AppView, Board, BoardView, ConnectionView, Device, DeviceStatus, DeviceView, ExposeView,
    Function, FunctionView, GrammarKind, Net, NetView, SchematicError, SchematicErrorView, Soc,
};
use crate::topology::{board_nets, board_nets_spec, find_pinmux, first_pinmux, net_known};

verus! {

/// One row of "pins used by a device": a net the device attaches to, the
/// function it uses there, and the first enabled device occupying the net,
/// if any.
#[derive(Debug, PartialEq, Eq)]
pub struct PinUsage {
    /// The net the queried device attaches to.
    pub net: Net,
    /// The function the queried device uses on that net.
    pub function: Function,
    /// Name of the first Used device attached to the net, if any.
    pub used_by: Option<String>,
}

/// Spec-level shape of a [`PinUsage`].
pub struct PinUsageView {
    pub net: NetView,
    pub function: FunctionView,
    pub used_by: Option<Seq<char>>,
}

impl View for PinUsage {
    type V = PinUsageView;

    open spec fn view(&self) -> PinUsageView {
        PinUsageView {
            net: self.net@,
            function: self.function@,
            used_by: match self.used_by {
                Some(n) => Some(n@),
                None => None,
            },
        }
    }
}

impl DeepView for PinUsage {
    type V = PinUsageView;

    open spec fn deep_view(&self) -> PinUsageView {
        self.view()
    }
}

/// One row of "find device using pin": a device attached to the queried
/// net, its status, and the function its first connection to the net uses.
#[derive(Debug, PartialEq, Eq)]
pub struct DeviceUsage {
    /// Name of the device attached to the net.
    pub device: String,
    /// Used/Free status of that device for the queried app.
    pub status: DeviceStatus,
    /// Function of the device's first connection to the net.
    pub function: Function,
}

/// Spec-level shape of a [`DeviceUsage`].
pub struct DeviceUsageView {
    pub device: Seq<char>,
    pub status: DeviceStatus,
    pub function: FunctionView,
}

impl View for DeviceUsage {
    type V = DeviceUsageView;

    open spec fn view(&self) -> DeviceUsageView {
        DeviceUsageView { device: self.device@, status: self.status, function: self.function@ }
    }
}

impl DeepView for DeviceUsage {
    type V = DeviceUsageView;

    open spec fn deep_view(&self) -> DeviceUsageView {
        self.view()
    }
}

/// A device consuming some peripheral or net, with its status.
#[derive(Debug, PartialEq, Eq)]
pub struct Consumer {
    /// Name of the consuming device.
    pub device: String,
    /// Used/Free status of that device for the queried app.
    pub status: DeviceStatus,
}

/// Spec-level shape of a [`Consumer`].
pub struct ConsumerView {
    pub device: Seq<char>,
    pub status: DeviceStatus,
}

impl View for Consumer {
    type V = ConsumerView;

    open spec fn view(&self) -> ConsumerView {
        ConsumerView { device: self.device@, status: self.status }
    }
}

impl DeepView for Consumer {
    type V = ConsumerView;

    open spec fn deep_view(&self) -> ConsumerView {
        self.view()
    }
}

/// One row of "find peripheral using pin": a function the pin offers, and
/// the devices whose connection to the pin uses exactly that function.
#[derive(Debug, PartialEq, Eq)]
pub struct FunctionUsage {
    /// A function from the pin's pinmux.
    pub function: Function,
    /// Devices whose first connection to the net uses exactly this
    /// function, signal included, in board order.
    pub consumers: Vec<Consumer>,
}

/// Spec-level shape of a [`FunctionUsage`].
pub struct FunctionUsageView {
    pub function: FunctionView,
    pub consumers: Seq<ConsumerView>,
}

impl View for FunctionUsage {
    type V = FunctionUsageView;

    open spec fn view(&self) -> FunctionUsageView {
        FunctionUsageView { function: self.function@, consumers: self.consumers.deep_view() }
    }
}

impl DeepView for FunctionUsage {
    type V = FunctionUsageView;

    open spec fn deep_view(&self) -> FunctionUsageView {
        self.view()
    }
}

/// One pin of an exposed connector, with the first enabled device
/// occupying it, if any.
#[derive(Debug, PartialEq, Eq)]
pub struct ExposedPin {
    /// The net the connector surfaces.
    pub net: Net,
    /// Name of the first Used device attached to the net, if any.
    pub used_by: Option<String>,
}

/// Spec-level shape of an [`ExposedPin`].
pub struct ExposedPinView {
    pub net: NetView,
    pub used_by: Option<Seq<char>>,
}

impl View for ExposedPin {
    type V = ExposedPinView;

    open spec fn view(&self) -> ExposedPinView {
        ExposedPinView {
            net: self.net@,
            used_by: match self.used_by {
                Some(n) => Some(n@),
                None => None,
            },
        }
    }
}

impl DeepView for ExposedPin {
    type V = ExposedPinView;

    open spec fn deep_view(&self) -> ExposedPinView {
        self.view()
    }
}

/// One exposed connector with the usage of each of its pins.
#[derive(Debug, PartialEq, Eq)]
pub struct ExposeUsage {
    /// Name of the connector.
    pub connector: String,
    /// Its pins in declaration order, each with its occupant.
    pub pins: Vec<ExposedPin>,
}

/// Spec-level shape of an [`ExposeUsage`].
pub struct ExposeUsageView {
    pub connector: Seq<char>,
    pub pins: Seq<ExposedPinView>,
}

impl View for ExposeUsage {
    type V = ExposeUsageView;

    open spec fn view(&self) -> ExposeUsageView {
        ExposeUsageView { connector: self.connector@, pins: self.pins.deep_view() }
    }
}

impl DeepView for ExposeUsage {
    type V = ExposeUsageView;

    open spec fn deep_view(&self) -> ExposeUsageView {
        self.view()
    }
}

/// The first device in board order that is enabled by the app and has a
/// connection to `net`; later matches are not reported.
pub open spec fn first_user(devs: Seq<DeviceView>, a: AppView, net: NetView) -> Option<Seq<char>>
    decreases devs.len(),
{
    if devs.len() == 0 {
        None
    } else if conn_to(devs.first(), net) is Some && status_of(a, devs.first().name)
        == DeviceStatus::Used {
        Some(devs.first().name)
    } else {
        first_user(devs.drop_first(), a, net)
    }
}

/// The name of the first Used device attached to `net`, if any.
pub fn net_used_by(devices: &Vec<Device>, app: &App, net: &Net) -> (r: Option<String>)
    ensures
        match r {
            Some(n) => first_user(devices.deep_view(), app@, net@) == Some(n@),
            None => first_user(devices.deep_view(), app@, net@) is None,
        },
{
    let ghost devs = devices.deep_view();
    proof {
        assert(devs.skip(0) =~= devs);
    }
    let mut i: usize = 0;
    while i < devices.len()
        invariant
            i <= devices.len(),
            devs == devices.deep_view(),
            devs.len() == devices.len(),
            first_user(devs, app@, net@) == first_user(devs.skip(i as int), app@, net@),
        decreases devices.len() - i,
    {
        proof {
            assert(devs.skip(i as int).first() == devs[i as int]);
            assert(devs.skip(i as int).drop_first() =~= devs.skip(i + 1));
        }
        let d = &devices[i];
        if d.connection_to(net).is_some() {
            if app.uses(d.name.as_str()) {
                return Some(d.name.clone());
            }
        }
        i += 1;
    }
    proof {
        assert(devs.skip(devs.len() as int) =~= Seq::<DeviceView>::empty());
    }
    None
}

/// The rows of "pins used by device `d`": one per connection of `d`, in
/// declaration order, resolved against the board's devices.
pub open spec fn pins_used_of(b: BoardView, a: AppView, d: DeviceView) -> Seq<PinUsageView> {
    d.connects.map_values(
        |c: ConnectionView|
            PinUsageView {
                net: c.net,
                function: c.function,
                used_by: first_user(b.devices, a, c.net),
            },
    )
}

/// Lists the pins used by the named device: one row per connection, each
/// with the first enabled device occupying that net. Fails only when the
/// named device does not exist on the board; a device without connections
/// yields an empty list.
pub fn list_pins_used_by_device(board: &Board, app: &App, device: &str) -> (r: Result<
    Vec<PinUsage>,
    SchematicError,
>)
    ensures
        match find_device(board@.devices, device@) {
            Some(d) => r matches Ok(v) && v.deep_view() == pins_used_of(board@, app@, d),
            None => r matches Err(e) && e@ == (SchematicErrorView::NotFound { name: device@ }),
        },
{
    let d = match board.device_by_name(device) {
        Some(d) => d,
        None => {
            return Err(SchematicError::NotFound { name: device.to_owned() });
        },
    };
    let ghost dv = d@;
    let mut rows: Vec<PinUsage> = Vec::new();
    let mut i: usize = 0;
    while i < d.connects.len()
        invariant
            i <= d.connects.len(),
            dv == d@,
            dv.connects.len() == d.connects.len(),
            rows.deep_view().len() == i,
            forall|j: int| 0 <= j < i ==> rows.deep_view()[j] == pins_used_of(board@, app@, dv)[j],
        decreases d.connects.len() - i,
    {
        let ghost prev = rows.deep_view();
        let conn = &d.connects[i];
        let used_by = net_used_by(&board.devices, app, &conn.net);
        rows.push(PinUsage { net: conn.net.clone(), function: conn.function.clone(), used_by });
        proof {
            assert(rows.deep_view() =~= prev.push(rows.deep_view()[i as int]));
            assert(rows.deep_view()[i as int] == pins_used_of(board@, app@, dv)[i as int]);
        }
        i += 1;
    }
    proof {
        assert(rows.deep_view() =~= pins_used_of(board@, app@, dv));
    }
    Ok(rows)
}

/// The row "find device using pin" produces for one device, if it is
/// attached to the queried net.
pub open spec fn device_usage_row(d: DeviceView, a: AppView, net: NetView) -> Option<
    DeviceUsageView,
> {
    match conn_to(d, net) {
        Some(c) => Some(
            DeviceUsageView { device: d.name, status: status_of(a, d.name), function: c.function },
        ),
        None => None,
    }
}

/// The rows of "find device using pin": every device attached to the net,
/// in board order, with its status and the function of its first
/// connection to the net.
pub open spec fn device_usages_of(devs: Seq<DeviceView>, a: AppView, net: NetView) -> Seq<
    DeviceUsageView,
> {
    devs.filter_map(|d: DeviceView| device_usage_row(d, a, net))
}

/// One step of the device scan: processing one more device appends its
/// row, if it has one.
proof fn lemma_device_usages_step(devs: Seq<DeviceView>, a: AppView, net: NetView, i: int)
    requires
        0 <= i < devs.len(),
    ensures
        device_usages_of(devs.take(i + 1), a, net) == device_usages_of(devs.take(i), a, net)
            + (match device_usage_row(devs[i], a, net) {
            Some(u) => seq![u],
            None => Seq::empty(),
        }),
{
    assert(devs.take(i + 1).drop_last() =~= devs.take(i));
    assert(devs.take(i + 1).last() == devs[i]);
    match device_usage_row(devs[i], a, net) {
        Some(u) => {
            assert(device_usages_of(devs.take(i + 1), a, net) =~= device_usages_of(
                devs.take(i),
                a,
                net,
            ) + seq![u]);
        },
        None => {
            assert(device_usages_of(devs.take(i + 1), a, net) =~= device_usages_of(
                devs.take(i),
                a,
                net,
            ) + Seq::<DeviceUsageView>::empty());
        },
    }
}

/// Finds the devices using the given pin. The pin text must parse as a
/// net and must exist in the combined net space of the SoC and the
/// board's devices; a known pin with no attached devices yields an empty
/// list.
pub fn find_device_using_pin(soc: &Soc, board: &Board, app: &App, pin: &str) -> (r: Result<
    Vec<DeviceUsage>,
    SchematicError,
>)
    ensures
        match parse_net_spec(pin@) {
            None => r matches Err(e) && e@ == (SchematicErrorView::InvalidFormat {
                text: pin@,
                grammar: GrammarKind::Net,
            }),
            Some(net) => if net_known(soc@, board@, net) {
                r matches Ok(v) && v.deep_view() == device_usages_of(board@.devices, app@, net)
            } else {
                r matches Err(e) && e@ == (SchematicErrorView::NotFound { name: pin@ })
            },
        },
{
    let net = match Net::parse(pin) {
        Ok(net) => net,
        Err(e) => {
            return Err(e);
        },
    };
    let space = board_nets(soc, board);
    if find_pinmux(&space, &net).is_none() {
        return Err(SchematicError::NotFound { name: pin.to_owned() });
    }
    let ghost devs = board@.devices;
    let mut rows: Vec<DeviceUsage> = Vec::new();
    let mut i: usize = 0;
    proof {
        assert(devs.take(0) =~= Seq::<DeviceView>::empty());
        assert(device_usages_of(devs.take(0), app@, net@) =~= Seq::<DeviceUsageView>::empty());
    }
    while i < board.devices.len()
        invariant
            i <= board.devices.len(),
            devs == board@.devices,
            devs.len() == board.devices.len(),
            rows.deep_view() == device_usages_of(devs.take(i as int), app@, net@),
        decreases board.devices.len() - i,
    {
        let ghost prev = rows.deep_view();
        let d = &board.devices[i];
        match d.connection_to(&net) {
            Some(conn) => {
                let status = app.status(d.name.as_str());
                rows.push(
                    DeviceUsage { device: d.name.clone(), status, function: conn.function.clone() },
                );
                proof {
                    assert(rows.deep_view() =~= prev.push(rows.deep_view()[prev.len() as int]));
                }
            },
            None => {},
        }
        proof {
            lemma_device_usages_step(devs, app@, net@, i as int);
            assert(rows.deep_view() =~= device_usages_of(devs.take(i + 1), app@, net@));
        }
        i += 1;
    }
    proof {
        assert(devs.take(devs.len() as int) =~= devs);
    }
    Ok(rows)
}

/// The first function of a pinmux belonging to the named peripheral.
pub open spec fn first_fn_for(pinmux: Seq<FunctionView>, p: Seq<char>) -> Option<FunctionView>
    decreases pinmux.len(),
{
    if pinmux.len() == 0 {
        None
    } else if fn_peripheral(pinmux.first()) == p {
        Some(pinmux.first())
    } else {
        first_fn_for(pinmux.drop_first(), p)
    }
}

/// The first function of `pinmux` belonging to the named peripheral.
fn find_first_fn<'a>(pinmux: &'a Vec<Function>, peripheral: &str) -> (r: Option<&'a Function>)
    ensures
        match r {
            Some(f) => first_fn_for(pinmux.deep_view(), peripheral@) == Some(f@),
            None => first_fn_for(pinmux.deep_view(), peripheral@) is None,
        },
{
    let ghost fns = pinmux.deep_view();
    proof {
        assert(fns.skip(0) =~= fns);
    }
    let mut i: usize = 0;
    while i < pinmux.len()
        invariant
            i <= pinmux.len(),
            fns == pinmux.deep_view(),
            fns.len() == pinmux.len(),
            first_fn_for(fns, peripheral@) == first_fn_for(fns.skip(i as int), peripheral@),
        decreases pinmux.len() - i,
    {
        proof {
            assert(fns.skip(i as int).first() == fns[i as int]);
            assert(fns.skip(i as int).drop_first() =~= fns.skip(i + 1));
        }
        if pinmux[i].is(peripheral) {
            return Some(&pinmux[i]);
        }
        i += 1;
    }
    proof {
        assert(fns.skip(fns.len() as int) =~= Seq::<FunctionView>::empty());
    }
    None
}

/// The row "pins for a peripheral" produces for one net-space entry, if
/// its pinmux offers the peripheral: the net, the first matching function,
/// and the first enabled device occupying the net.
pub open spec fn peripheral_pin_row(
    e: (NetView, Seq<FunctionView>),
    devs: Seq<DeviceView>,
    a: AppView,
    p: Seq<char>,
) -> Option<PinUsageView> {
    match first_fn_for(e.1, p) {
        Some(f) => Some(PinUsageView { net: e.0, function: f, used_by: first_user(devs, a, e.0) }),
        None => None,
    }
}

/// The rows of "pins for a peripheral" over a net space, in order.
pub open spec fn peripheral_pins_of(
    nets: Seq<(NetView, Seq<FunctionView>)>,
    devs: Seq<DeviceView>,
    a: AppView,
    p: Seq<char>,
) -> Seq<PinUsageView> {
    nets.filter_map(
        |e: (NetView, Seq<FunctionView>)| peripheral_pin_row(e, devs, a, p),
    )
}

/// One step of the net-space scan for "pins for a peripheral".
proof fn lemma_peripheral_pins_step(
    nets: Seq<(NetView, Seq<FunctionView>)>,
    devs: Seq<DeviceView>,
    a: AppView,
    p: Seq<char>,
    i: int,
)
    requires
        0 <= i < nets.len(),
    ensures
        peripheral_pins_of(nets.take(i + 1), devs, a, p) == peripheral_pins_of(
            nets.take(i),
            devs,
            a,
            p,
        ) + (match peripheral_pin_row(nets[i], devs, a, p) {
            Some(u) => seq![u],
            None => Seq::empty(),
        }),
{
    assert(nets.take(i + 1).drop_last() =~= nets.take(i));
    assert(nets.take(i + 1).last() == nets[i]);
    match peripheral_pin_row(nets[i], devs, a, p) {
        Some(u) => {
            assert(peripheral_pins_of(nets.take(i + 1), devs, a, p) =~= peripheral_pins_of(
                nets.take(i),
                devs,
                a,
                p,
            ) + seq![u]);
        },
        None => {
            assert(peripheral_pins_of(nets.take(i + 1), devs, a, p) =~= peripheral_pins_of(
                nets.take(i),
                devs,
                a,
                p,
            ) + Seq::<PinUsageView>::empty());
        },
    }
}

/// Lists every pin of the combined net space that the named peripheral
/// can use: one row per net whose pinmux offers the peripheral, with the
/// first matching function and the net's occupant. An unknown peripheral
/// yields an empty list, never an error.
pub fn list_peripheral_pins(soc: &Soc, board: &Board, app: &App, peripheral: &str) -> (r: Vec<
    PinUsage,
>)
    ensures
        r.deep_view() == peripheral_pins_of(
            board_nets_spec(soc@, board@),
            board@.devices,
            app@,
            peripheral@,
        ),
{
    let space = board_nets(soc, board);
    let ghost nets = space.deep_view();
    let mut rows: Vec<PinUsage> = Vec::new();
    let mut i: usize = 0;
    proof {
        assert(nets.take(0) =~= Seq::<(NetView, Seq<FunctionView>)>::empty());
        assert(peripheral_pins_of(nets.take(0), board@.devices, app@, peripheral@) =~= Seq::<
            PinUsageView,
        >::empty());
    }
    while i < space.len()
        invariant
            i <= space.len(),
            nets == space.deep_view(),
            nets.len() == space.len(),
            rows.deep_view() == peripheral_pins_of(
                nets.take(i as int),
                board@.devices,
                app@,
                peripheral@,
            ),
        decreases space.len() - i,
    {
        let ghost prev = rows.deep_view();
        match find_first_fn(&space[i].1, peripheral) {
            Some(f) => {
                let used_by = net_used_by(&board.devices, app, &space[i].0);
                rows.push(PinUsage { net: space[i].0.clone(), function: f.clone(), used_by });
                proof {
                    assert(rows.deep_view() =~= prev.push(rows.deep_view()[prev.len() as int]));
                }
            },
            None => {},
        }
        proof {
            lemma_peripheral_pins_step(nets, board@.devices, app@, peripheral@, i as int);
            assert(rows.deep_view() =~= peripheral_pins_of(
                nets.take(i + 1),
                board@.devices,
                app@,
                peripheral@,
            ));
        }
        i += 1;
    }
    proof {
        assert(nets.take(nets.len() as int) =~= nets);
    }
    rows
}

/// The consumer row one device contributes for a given net and exact
/// function: present when the device's first connection to the net uses
/// exactly that function, signal included.
pub open spec fn exact_consumer_row(
    d: DeviceView,
    a: AppView,
    net: NetView,
    f: FunctionView,
) -> Option<ConsumerView> {
    match conn_to(d, net) {
        Some(c) => if c.function == f {
            Some(ConsumerView { device: d.name, status: status_of(a, d.name) })
        } else {
            None
        },
        None => None,
    }
}

/// The devices whose first connection to `net` uses exactly `f`, in board
/// order, each with its status.
pub open spec fn exact_consumers_of(
    devs: Seq<DeviceView>,
    a: AppView,
    net: NetView,
    f: FunctionView,
) -> Seq<ConsumerView> {
    devs.filter_map(|d: DeviceView| exact_consumer_row(d, a, net, f))
}

/// One step of the device scan for exact consumers.
proof fn lemma_exact_consumers_step(
    devs: Seq<DeviceView>,
    a: AppView,
    net: NetView,
    f: FunctionView,
    i: int,
)
    requires
        0 <= i < devs.len(),
    ensures
        exact_consumers_of(devs.take(i + 1), a, net, f) == exact_consumers_of(
            devs.take(i),
            a,
            net,
            f,
        ) + (match exact_consumer_row(devs[i], a, net, f) {
            Some(u) => seq![u],
            None => Seq::empty(),
        }),
{
    assert(devs.take(i + 1).drop_last() =~= devs.take(i));
    assert(devs.take(i + 1).last() == devs[i]);
    match exact_consumer_row(devs[i], a, net, f) {
        Some(u) => {
            assert(exact_consumers_of(devs.take(i + 1), a, net, f) =~= exact_consumers_of(
                devs.take(i),
                a,
                net,
                f,
            ) + seq![u]);
        },
        None => {
            assert(exact_consumers_of(devs.take(i + 1), a, net, f) =~= exact_consumers_of(
                devs.take(i),
                a,
                net,
                f,
            ) + Seq::<ConsumerView>::empty());
        },
    }
}

/// The devices whose first connection to `net` uses exactly `function`.
fn exact_consumers(devices: &Vec<Device>, app: &App, net: &Net, function: &Function) -> (r: Vec<
    Consumer,
>)
    ensures
        r.deep_view() == exact_consumers_of(devices.deep_view(), app@, net@, function@),
{
    let ghost devs = devices.deep_view();
    let mut rows: Vec<Consumer> = Vec::new();
    let mut i: usize = 0;
    proof {
        assert(devs.take(0) =~= Seq::<DeviceView>::empty());
        assert(exact_consumers_of(devs.take(0), app@, net@, function@) =~= Seq::<
            ConsumerView,
        >::empty());
    }
    while i < devices.len()
        invariant
            i <= devices.len(),
            devs == devices.deep_view(),
            devs.len() == devices.len(),
            rows.deep_view() == exact_consumers_of(devs.take(i as int), app@, net@, function@),
        decreases devices.len() - i,
    {
        let ghost prev = rows.deep_view();
        let d = &devices[i];
        match d.connection_to(net) {
            Some(conn) => {
                if crate::lookup::function_eq(&conn.function, function) {
                    let status = app.status(d.name.as_str());
                    rows.push(Consumer { device: d.name.clone(), status });
                    proof {
                        assert(rows.deep_view() =~= prev.push(
                            rows.deep_view()[prev.len() as int],
                        ));
                    }
                }
            },
            None => {},
        }
        proof {
            lemma_exact_consumers_step(devs, app@, net@, function@, i as int);
            assert(rows.deep_view() =~= exact_consumers_of(
                devs.take(i + 1),
                app@,
                net@,
                function@,
            ));
        }
        i += 1;
    }
    proof {
        assert(devs.take(devs.len() as int) =~= devs);
    }
    rows
}

/// The rows of "find peripheral using pin": one per function of the pin's
/// pinmux, in pinmux order, each with the devices consuming exactly that
/// function on the net.
pub open spec fn function_usages_of(
    devs: Seq<DeviceView>,
    a: AppView,
    net: NetView,
    pinmux: Seq<FunctionView>,
) -> Seq<FunctionUsageView> {
    pinmux.map_values(
        |f: FunctionView| FunctionUsageView { function: f, consumers: exact_consumers_of(devs, a, net, f) },
    )
}

/// Finds the peripherals that can use the given pin. The pin text must
/// parse as a net; its pinmux is that of the first matching entry in the
/// combined net space (SoC nets first, then each device's own nets), and
/// the pin must exist there. Each function of the pinmux is reported with
/// the devices connected via exactly that net and function.
pub fn find_peripheral_using_pin(soc: &Soc, board: &Board, app: &App, pin: &str) -> (r: Result<
    Vec<FunctionUsage>,
    SchematicError,
>)
    ensures
        match parse_net_spec(pin@) {
            None => r matches Err(e) && e@ == (SchematicErrorView::InvalidFormat {
                text: pin@,
                grammar: GrammarKind::Net,
            }),
            Some(net) => match first_pinmux(board_nets_spec(soc@, board@), net) {
                Some(pinmux) => r matches Ok(v) && v.deep_view() == function_usages_of(
                    board@.devices,
                    app@,
                    net,
                    pinmux,
                ),
                None => r matches Err(e) && e@ == (SchematicErrorView::NotFound { name: pin@ }),
            },
        },
{
    let net = match Net::parse(pin) {
        Ok(net) => net,
        Err(e) => {
            return Err(e);
        },
    };
    let space = board_nets(soc, board);
    let pinmux = match find_pinmux(&space, &net) {
        Some(p) => p,
        None => {
            return Err(SchematicError::NotFound { name: pin.to_owned() });
        },
    };
    let ghost fns = pinmux.deep_view();
    let mut rows: Vec<FunctionUsage> = Vec::new();
    let mut i: usize = 0;
    while i < pinmux.len()
        invariant
            i <= pinmux.len(),
            fns == pinmux.deep_view(),
            fns.len() == pinmux.len(),
            rows.deep_view().len() == i,
            forall|j: int|
                0 <= j < i ==> rows.deep_view()[j] == function_usages_of(
                    board@.devices,
                    app@,
                    net@,
                    fns,
                )[j],
        decreases pinmux.len() - i,
    {
        let ghost prev = rows.deep_view();
        let consumers = exact_consumers(&board.devices, app, &net, &pinmux[i]);
        rows.push(FunctionUsage { function: pinmux[i].clone(), consumers });
        proof {
            assert(rows.deep_view() =~= prev.push(rows.deep_view()[i as int]));
            assert(rows.deep_view()[i as int] == function_usages_of(
                board@.devices,
                app@,
                net@,
                fns,
            )[i as int]);
        }
        i += 1;
    }
    proof {
        assert(rows.deep_view() =~= function_usages_of(board@.devices, app@, net@, fns));
    }
    Ok(rows)
}

/// The usage report for one exposed connector: each of its nets with the
/// first enabled device occupying it.
pub open spec fn expose_usage_of(devs: Seq<DeviceView>, a: AppView, e: ExposeView) -> ExposeUsageView {
    ExposeUsageView {
        connector: e.name,
        pins: e.pins.map_values(
            |n: NetView| ExposedPinView { net: n, used_by: first_user(devs, a, n) },
        ),
    }
}

/// The rows of "list exposed pins": one report per connector, in
/// declaration order.
pub open spec fn exposes_of(b: BoardView, a: AppView) -> Seq<ExposeUsageView> {
    b.exposes.map_values(|e: ExposeView| expose_usage_of(b.devices, a, e))
}

/// Lists the pins every connector of the board exposes, each with its
/// occupant. A board without connectors yields an empty list, never an
/// error.
pub fn list_exposes(board: &Board, app: &App) -> (r: Vec<ExposeUsage>)
    ensures
        r.deep_view() == exposes_of(board@, app@),
{
    let mut rows: Vec<ExposeUsage> = Vec::new();
    let mut i: usize = 0;
    while i < board.exposes.len()
        invariant
            i <= board.exposes.len(),
            board@.exposes.len() == board.exposes.len(),
            rows.deep_view().len() == i,
            forall|j: int| 0 <= j < i ==> rows.deep_view()[j] == exposes_of(board@, app@)[j],
        decreases board.exposes.len() - i,
    {
        let ghost prev = rows.deep_view();
        let expose = &board.exposes[i];
        let ghost ev = expose@;
        let mut pins: Vec<ExposedPin> = Vec::new();
        let mut k: usize = 0;
        while k < expose.pins.len()
            invariant
                k <= expose.pins.len(),
                ev == expose@,
                ev.pins.len() == expose.pins.len(),
                pins.deep_view().len() == k,
                forall|j: int|
                    0 <= j < k ==> pins.deep_view()[j] == expose_usage_of(
                        board@.devices,
                        app@,
                        ev,
                    ).pins[j],
            decreases expose.pins.len() - k,
        {
            let ghost pprev = pins.deep_view();
            let used_by = net_used_by(&board.devices, app, &expose.pins[k]);
            pins.push(ExposedPin { net: expose.pins[k].clone(), used_by });
            proof {
                assert(pins.deep_view() =~= pprev.push(pins.deep_view()[k as int]));
                assert(pins.deep_view()[k as int] == expose_usage_of(
                    board@.devices,
                    app@,
                    ev,
                ).pins[k as int]);
            }
            k += 1;
        }
        rows.push(ExposeUsage { connector: expose.name.clone(), pins });
        proof {
            assert(pins.deep_view() =~= expose_usage_of(board@.devices, app@, ev).pins);
            assert(rows.deep_view() =~= prev.push(rows.deep_view()[i as int]));
            assert(rows.deep_view()[i as int] == exposes_of(board@, app@)[i as int]);
        }
        i += 1;
    }
    proof {
        assert(rows.deep_view() =~= exposes_of(board@, app@));
    }
    rows
}

} // verus!
