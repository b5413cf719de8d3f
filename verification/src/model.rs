//! The schematic entity model: SoC, pins, functions, nets, connections,
//! boards, devices, exposed connectors and applications, together with the
//! spec-level views the contracts of this crate are stated over.

use vstd::prelude::*;
use vstd::pervasive::cloned;
use vstd::string::StrSliceExecFns;

verus! {

/// A capability a pin can be configured for: either a bare name such as
/// `gpio`, or a peripheral together with one of its signals, such as
/// `uart0.txd`.
#[derive(Debug, PartialEq, Eq)]
pub enum Function {
    /// A simple function without explicit signal pins, e.g. `gpio`, `pwm`.
    Simple(String),
    /// A function tied to a peripheral and one of its signals, e.g. `uart0.txd`.
    Peripheral { name: String, signal: String },
}

/// Spec-level shape of a [`Function`].
pub enum FunctionView {
    Simple { name: Seq<char> },
    Peripheral { name: Seq<char>, signal: Seq<char> },
}

impl View for Function {
    type V = FunctionView;

    open spec fn view(&self) -> FunctionView {
        match self {
            Function::Simple(name) => FunctionView::Simple { name: name@ },
            Function::Peripheral { name, signal } => FunctionView::Peripheral {
                name: name@,
                signal: signal@,
            },
        }
    }
}

impl DeepView for Function {
    type V = FunctionView;

    open spec fn deep_view(&self) -> FunctionView {
        self.view()
    }
}

impl Clone for Function {
    fn clone(&self) -> (r: Self)
        ensures
            r@ == self@,
    {
        match self {
            Function::Simple(name) => Function::Simple(name.clone()),
            Function::Peripheral { name, signal } => Function::Peripheral {
                name: name.clone(),
                signal: signal.clone(),
            },
        }
    }
}

/// The addressable identity of a physical pin: either directly on the SoC,
/// or behind a named on-board device (e.g. an IO expander).
#[derive(Debug, PartialEq, Eq)]
pub enum Net {
    /// A net that directly connects to a SoC pin.
    Direct { pin: String },
    /// A net that connects through a pin exposed by an on-board device.
    Device { device: String, pin: String },
}

/// Spec-level shape of a [`Net`].
pub enum NetView {
    Direct { pin: Seq<char> },
    Device { device: Seq<char>, pin: Seq<char> },
}

impl View for Net {
    type V = NetView;

    open spec fn view(&self) -> NetView {
        match self {
            Net::Direct { pin } => NetView::Direct { pin: pin@ },
            Net::Device { device, pin } => NetView::Device { device: device@, pin: pin@ },
        }
    }
}

impl DeepView for Net {
    type V = NetView;

    open spec fn deep_view(&self) -> NetView {
        self.view()
    }
}

impl Clone for Net {
    fn clone(&self) -> (r: Self)
        ensures
            r@ == self@,
    {
        match self {
            Net::Direct { pin } => Net::Direct { pin: pin.clone() },
            Net::Device { device, pin } => Net::Device {
                device: device.clone(),
                pin: pin.clone(),
            },
        }
    }
}

/// A board-level wire: the net a device attaches to, and the capability the
/// device uses on that net. Canonical text form: `net@function`.
#[derive(Debug, PartialEq, Eq)]
pub struct Connection {
    /// The pin the device attaches to, possibly behind another device.
    pub net: Net,
    /// The function the pin performs for this device, e.g. `uart0.txd`.
    pub function: Function,
}

/// Spec-level shape of a [`Connection`].
pub struct ConnectionView {
    pub net: NetView,
    pub function: FunctionView,
}

impl View for Connection {
    type V = ConnectionView;

    open spec fn view(&self) -> ConnectionView {
        ConnectionView { net: self.net@, function: self.function@ }
    }
}

impl DeepView for Connection {
    type V = ConnectionView;

    open spec fn deep_view(&self) -> ConnectionView {
        self.view()
    }
}

impl Clone for Connection {
    fn clone(&self) -> (r: Self)
        ensures
            r@ == self@,
    {
        Connection { net: self.net.clone(), function: self.function.clone() }
    }
}

/// A named physical contact together with the ordered list of functions it
/// can be configured for (its pinmux).
#[derive(Debug, PartialEq, Eq)]
pub struct Pin {
    /// Name of the pin or pad, e.g. `GPIO0`, `PB2`.
    pub name: String,
    /// Functions selectable for this pin, in declaration order.
    pub pinmux: Vec<Function>,
}

/// Spec-level shape of a [`Pin`].
pub struct PinView {
    pub name: Seq<char>,
    pub pinmux: Seq<FunctionView>,
}

impl View for Pin {
    type V = PinView;

    open spec fn view(&self) -> PinView {
        PinView { name: self.name@, pinmux: self.pinmux.deep_view() }
    }
}

impl DeepView for Pin {
    type V = PinView;

    open spec fn deep_view(&self) -> PinView {
        self.view()
    }
}

impl Clone for Pin {
    fn clone(&self) -> (r: Self)
        ensures
            r@ == self@,
    {
        let pinmux = self.pinmux.clone();
        proof {
            assert forall|i: int| 0 <= i < self.pinmux@.len() implies pinmux.deep_view()[i]
                == self.pinmux.deep_view()[i] by {
                assert(cloned::<Function>(self.pinmux[i], pinmux[i]));
            }
            assert(pinmux.deep_view() =~= self.pinmux.deep_view());
        }
        Pin { name: self.name.clone(), pinmux }
    }
}

/// The board's core chip: its shared bus peripherals and the pins it exposes.
#[derive(Debug, PartialEq, Eq)]
pub struct Soc {
    /// Name of the SoC.
    pub name: String,
    /// Description of the SoC.
    pub description: Option<String>,
    /// Bus peripherals that more than one external device may share.
    pub buses: Vec<String>,
    /// Pins available on the SoC, in declaration order.
    pub pins: Vec<Pin>,
}

/// Spec-level shape of a [`Soc`].
pub struct SocView {
    pub name: Seq<char>,
    pub description: Option<Seq<char>>,
    pub buses: Seq<Seq<char>>,
    pub pins: Seq<PinView>,
}

impl View for Soc {
    type V = SocView;

    open spec fn view(&self) -> SocView {
        SocView {
            name: self.name@,
            description: match self.description {
                Some(d) => Some(d@),
                None => None,
            },
            buses: self.buses.deep_view(),
            pins: self.pins.deep_view(),
        }
    }
}

impl DeepView for Soc {
    type V = SocView;

    open spec fn deep_view(&self) -> SocView {
        self.view()
    }
}

/// A discrete on-board component: the nets it attaches to, the buses it
/// re-exposes, and any further pins it fans out (e.g. an IO expander).
#[derive(Debug, PartialEq, Eq)]
pub struct Device {
    /// Name of the device.
    pub name: String,
    /// Nets the device attaches to, in declaration order.
    pub connects: Vec<Connection>,
    /// Names of buses the device re-exposes.
    pub buses: Vec<String>,
    /// Pins the device itself exposes, in declaration order.
    pub pins: Vec<Pin>,
}

/// Spec-level shape of a [`Device`].
pub struct DeviceView {
    pub name: Seq<char>,
    pub connects: Seq<ConnectionView>,
    pub buses: Seq<Seq<char>>,
    pub pins: Seq<PinView>,
}

impl View for Device {
    type V = DeviceView;

    open spec fn view(&self) -> DeviceView {
        DeviceView {
            name: self.name@,
            connects: self.connects.deep_view(),
            buses: self.buses.deep_view(),
            pins: self.pins.deep_view(),
        }
    }
}

impl DeepView for Device {
    type V = DeviceView;

    open spec fn deep_view(&self) -> DeviceView {
        self.view()
    }
}

impl Clone for Device {
    fn clone(&self) -> (r: Self)
        ensures
            r@ == self@,
    {
        let connects = self.connects.clone();
        let buses = self.buses.clone();
        let pins = self.pins.clone();
        proof {
            assert forall|i: int| 0 <= i < self.connects@.len() implies connects.deep_view()[i]
                == self.connects.deep_view()[i] by {
                assert(cloned::<Connection>(self.connects[i], connects[i]));
            }
            assert(connects.deep_view() =~= self.connects.deep_view());
            assert forall|i: int| 0 <= i < self.buses@.len() implies buses.deep_view()[i]
                == self.buses.deep_view()[i] by {
                assert(cloned::<String>(self.buses[i], buses[i]));
            }
            assert(buses.deep_view() =~= self.buses.deep_view());
            assert forall|i: int| 0 <= i < self.pins@.len() implies pins.deep_view()[i]
                == self.pins.deep_view()[i] by {
                assert(cloned::<Pin>(self.pins[i], pins[i]));
            }
            assert(pins.deep_view() =~= self.pins.deep_view());
        }
        Device { name: self.name.clone(), connects, buses, pins }
    }
}

/// A connector on the board surfacing a subset of nets to the user.
#[derive(Debug, PartialEq, Eq)]
pub struct Expose {
    /// Name of the exposed connector, e.g. `CN1`, `J1`.
    pub name: String,
    /// Nets reachable through the connector, in declaration order.
    pub pins: Vec<Net>,
}

/// Spec-level shape of an [`Expose`].
pub struct ExposeView {
    pub name: Seq<char>,
    pub pins: Seq<NetView>,
}

impl View for Expose {
    type V = ExposeView;

    open spec fn view(&self) -> ExposeView {
        ExposeView { name: self.name@, pins: self.pins.deep_view() }
    }
}

impl DeepView for Expose {
    type V = ExposeView;

    open spec fn deep_view(&self) -> ExposeView {
        self.view()
    }
}

impl Clone for Expose {
    fn clone(&self) -> (r: Self)
        ensures
            r@ == self@,
    {
        let pins = self.pins.clone();
        proof {
            assert forall|i: int| 0 <= i < self.pins@.len() implies pins.deep_view()[i]
                == self.pins.deep_view()[i] by {
                assert(cloned::<Net>(self.pins[i], pins[i]));
            }
            assert(pins.deep_view() =~= self.pins.deep_view());
        }
        Expose { name: self.name.clone(), pins }
    }
}

/// A whole board: the SoC it is built around (by name), its devices and the
/// connectors it exposes.
#[derive(Debug, PartialEq, Eq)]
pub struct Board {
    /// Name of the board.
    pub name: String,
    /// Description of the board.
    pub description: Option<String>,
    /// Name of the SoC the board uses; resolved by the caller.
    pub soc: String,
    /// Devices placed on the board, in declaration order.
    pub devices: Vec<Device>,
    /// Connectors exposed by the board, in declaration order.
    pub exposes: Vec<Expose>,
}

/// Spec-level shape of a [`Board`].
pub struct BoardView {
    pub name: Seq<char>,
    pub description: Option<Seq<char>>,
    pub soc: Seq<char>,
    pub devices: Seq<DeviceView>,
    pub exposes: Seq<ExposeView>,
}

impl View for Board {
    type V = BoardView;

    open spec fn view(&self) -> BoardView {
        BoardView {
            name: self.name@,
            description: match self.description {
                Some(d) => Some(d@),
                None => None,
            },
            soc: self.soc@,
            devices: self.devices.deep_view(),
            exposes: self.exposes.deep_view(),
        }
    }
}

impl DeepView for Board {
    type V = BoardView;

    open spec fn deep_view(&self) -> BoardView {
        self.view()
    }
}

/// An application: the set of on-board devices it actually uses.
#[derive(Debug, PartialEq, Eq)]
pub struct App {
    /// Name of the app.
    pub name: String,
    /// Description of the app.
    pub description: Option<String>,
    /// Names of the on-board devices enabled for the app.
    pub devices: Vec<String>,
}

/// Spec-level shape of an [`App`].
pub struct AppView {
    pub name: Seq<char>,
    pub description: Option<Seq<char>>,
    pub devices: Seq<Seq<char>>,
}

impl View for App {
    type V = AppView;

    open spec fn view(&self) -> AppView {
        AppView {
            name: self.name@,
            description: match self.description {
                Some(d) => Some(d@),
                None => None,
            },
            devices: self.devices.deep_view(),
        }
    }
}

impl DeepView for App {
    type V = AppView;

    open spec fn deep_view(&self) -> AppView {
        self.view()
    }
}

/// Used/Free classification of a device relative to an application.
#[derive(Debug, Clone, Copy, PartialEq, Eq, Structural)]
pub enum DeviceStatus {
    /// The application declares the device.
    Used,
    /// The application does not declare the device.
    Free,
}

/// Which identifier grammar a malformed string failed against.
#[derive(Debug, Clone, Copy, PartialEq, Eq, Structural)]
pub enum GrammarKind {
    /// The `pin` / `device:pin` grammar.
    Net,
    /// The `net@function` grammar.
    Connection,
}

/// The engine's two checked failure paths: malformed identifier text, and a
/// lookup that names a pin, device or peripheral absent from the graph.
/// Anything else (a device with no connections, a peripheral with zero
/// consumers) is a valid empty result, never an error.
#[derive(Debug, PartialEq, Eq)]
pub enum SchematicError {
    /// The given text does not belong to the named grammar.
    InvalidFormat { text: String, grammar: GrammarKind },
    /// The named pin, device or peripheral exists nowhere in the graph.
    NotFound { name: String },
}

/// Spec-level shape of a [`SchematicError`].
pub enum SchematicErrorView {
    InvalidFormat { text: Seq<char>, grammar: GrammarKind },
    NotFound { name: Seq<char> },
}

impl View for SchematicError {
    type V = SchematicErrorView;

    open spec fn view(&self) -> SchematicErrorView {
        match self {
            SchematicError::InvalidFormat { text, grammar } => SchematicErrorView::InvalidFormat {
                text: text@,
                grammar: *grammar,
            },
            SchematicError::NotFound { name } => SchematicErrorView::NotFound { name: name@ },
        }
    }
}

impl DeepView for SchematicError {
    type V = SchematicErrorView;

    open spec fn deep_view(&self) -> SchematicErrorView {
        self.view()
    }
}

/// Character-wise string equality, specified over the views.
pub fn str_eq(a: &str, b: &str) -> (r: bool)
    ensures
        r == (a@ == b@),
{
    let alen = a.unicode_len();
    let blen = b.unicode_len();
    if alen != blen {
        return false;
    }
    let mut i: usize = 0;
    while i < alen
        invariant
            alen == a@.len(),
            blen == b@.len(),
            alen == blen,
            0 <= i <= alen,
            forall|j: int| 0 <= j < i ==> a@[j] == b@[j],
        decreases alen - i,
    {
        if a.get_char(i) != b.get_char(i) {
            return false;
        }
        i += 1;
    }
    proof {
        assert(a@ =~= b@);
    }
    true
}

} // verus!
