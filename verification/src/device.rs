//! The USB side of the sensor: identity, endpoint layout, and the decisions of
//! the wait for a reset sensor to detach and come back.
use std::time::Duration;
use vstd::prelude::*;

use crate::text;

verus! {

pub const GOODIX_VID: u16 = 0x27c6;

pub const GOODIX_550A_PID: u16 = 0x550a;

/// Time between two looks at the bus, in milliseconds.
pub const REENUMERATION_POLL_INTERVAL_MILLIS: u64 = 25;

/// Endpoints of a claimed interface.
#[derive(Debug, Clone, Copy, PartialEq, Eq)]
pub struct UsbLayout {
    pub interface: u8,
    pub bulk_in: u8,
    pub bulk_out: u8,
    pub max_packet_size: u16,
}

/// What a USB failure means to the callers.
#[derive(Debug, Clone, Copy, PartialEq, Eq)]
pub enum GoodixUsbErrorKind {
    Timeout,
    NoDevice,
    NotFound,
    Busy,
    Other,
}

#[derive(Debug, Clone, PartialEq, Eq)]
pub struct GoodixUsbError {
    pub kind: GoodixUsbErrorKind,
    pub text: String,
}

/// A failure as the USB backend reports it.
#[derive(Debug, Clone, Copy, PartialEq, Eq)]
pub enum UsbBackendError {
    Io,
    InvalidParam,
    Access,
    NoDevice,
    NotFound,
    Busy,
    Timeout,
    Overflow,
    Pipe,
    Interrupted,
    NoMem,
    NotSupported,
    BadDescriptor,
    Other,
}

/// The kind of a backend failure: four of them can be acted on.
pub open spec fn kind_of_backend(error: UsbBackendError) -> GoodixUsbErrorKind {
    match error {
        UsbBackendError::Timeout => GoodixUsbErrorKind::Timeout,
        UsbBackendError::NoDevice => GoodixUsbErrorKind::NoDevice,
        UsbBackendError::NotFound => GoodixUsbErrorKind::NotFound,
        UsbBackendError::Busy => GoodixUsbErrorKind::Busy,
        _ => GoodixUsbErrorKind::Other,
    }
}

impl GoodixUsbError {
    /// The failure of a backend, with its text.
    pub fn from_backend(error: UsbBackendError, text: String) -> (result: Self)
        ensures
            result == (GoodixUsbError { kind: kind_of_backend(error), text }),
    {
        let kind: GoodixUsbErrorKind = match error {
            UsbBackendError::Timeout => GoodixUsbErrorKind::Timeout,
            UsbBackendError::NoDevice => GoodixUsbErrorKind::NoDevice,
            UsbBackendError::NotFound => GoodixUsbErrorKind::NotFound,
            UsbBackendError::Busy => GoodixUsbErrorKind::Busy,
            _ => GoodixUsbErrorKind::Other,
        };
        GoodixUsbError::new(kind, text)
    }

    pub fn new(kind: GoodixUsbErrorKind, text: String) -> (error: Self)
        ensures
            error == (GoodixUsbError { kind, text }),
    {
        GoodixUsbError { kind, text }
    }

    pub fn kind(&self) -> (kind: GoodixUsbErrorKind)
        ensures
            kind == self.kind,
    {
        self.kind
    }

    /// The message of this error.
    pub fn message(&self) -> (text: String)
        ensures
            text@ == self.text@,
    {
        self.text.clone()
    }
}

/// Whether vendor and product are those of the sensor.
pub fn is_goodix_550a(vendor_id: u16, product_id: u16) -> (is: bool)
    ensures
        is == (vendor_id == GOODIX_VID && product_id == GOODIX_550A_PID),
{
    vendor_id == GOODIX_VID && product_id == GOODIX_550A_PID
}

/// An endpoint of an interface.
#[derive(Debug, Clone, Copy, PartialEq, Eq)]
pub struct UsbEndpoint {
    pub bulk: bool,
    pub is_in: bool,
    pub address: u8,
    pub max_packet_size: u16,
}

/// An interface and its endpoints.
#[derive(Debug, Clone, PartialEq, Eq)]
pub struct UsbInterface {
    pub number: u8,
    pub endpoints: Vec<UsbEndpoint>,
}

/// Address of the last bulk endpoint of a direction among the first `n`.
pub open spec fn last_bulk(endpoints: Seq<UsbEndpoint>, is_in: bool, n: nat) -> Option<u8>
    decreases n,
{
    if n == 0 {
        None
    } else if endpoints[n - 1].bulk && endpoints[n - 1].is_in == is_in {
        Some(endpoints[n - 1].address)
    } else {
        last_bulk(endpoints, is_in, (n - 1) as nat)
    }
}

/// Largest packet size of the bulk endpoints among the first `n`.
pub open spec fn largest_bulk_packet(endpoints: Seq<UsbEndpoint>, n: nat) -> u16
    decreases n,
{
    if n == 0 {
        0
    } else {
        let before = largest_bulk_packet(endpoints, (n - 1) as nat);
        if endpoints[n - 1].bulk && endpoints[n - 1].max_packet_size > before {
            endpoints[n - 1].max_packet_size
        } else {
            before
        }
    }
}

/// The layout of an interface that has bulk endpoints in both directions.
pub open spec fn layout_of(number: u8, endpoints: Seq<UsbEndpoint>) -> Option<UsbLayout> {
    match (
        last_bulk(endpoints, true, endpoints.len()),
        last_bulk(endpoints, false, endpoints.len()),
    ) {
        (Some(bulk_in), Some(bulk_out)) => Some(
            UsbLayout {
                interface: number,
                bulk_in,
                bulk_out,
                max_packet_size: largest_bulk_packet(endpoints, endpoints.len()),
            },
        ),
        _ => None,
    }
}

/// The layout of an interface, if it has bulk endpoints in both directions.
pub fn layout_from_interface(interface: &UsbInterface) -> (layout: Option<UsbLayout>)
    ensures
        layout == layout_of(interface.number, interface.endpoints@),
{
    let mut bulk_in: Option<u8> = None;
    let mut bulk_out: Option<u8> = None;
    let mut max_packet_size: u16 = 0;
    for i in 0..interface.endpoints.len()
        invariant
            bulk_in == last_bulk(interface.endpoints@, true, i as nat),
            bulk_out == last_bulk(interface.endpoints@, false, i as nat),
            max_packet_size == largest_bulk_packet(interface.endpoints@, i as nat),
    {
        let endpoint: UsbEndpoint = interface.endpoints[i];
        if endpoint.bulk {
            if endpoint.max_packet_size > max_packet_size {
                max_packet_size = endpoint.max_packet_size;
            }
            if endpoint.is_in {
                bulk_in = Some(endpoint.address);
            } else {
                bulk_out = Some(endpoint.address);
            }
        }
    }
    match (bulk_in, bulk_out) {
        (Some(bulk_in), Some(bulk_out)) => Some(
            UsbLayout { interface: interface.number, bulk_in, bulk_out, max_packet_size },
        ),
        _ => None,
    }
}

/// The layout of the first interface that has one, from position `from` on.
pub open spec fn first_layout(interfaces: Seq<UsbInterface>, from: int) -> Option<UsbLayout>
    decreases interfaces.len() - from,
{
    if from < 0 || from >= interfaces.len() {
        None
    } else {
        match layout_of(interfaces[from].number, interfaces[from].endpoints@) {
            Some(layout) => Some(layout),
            None => first_layout(interfaces, from + 1),
        }
    }
}

/// The layout of the first interface that has one.
pub fn discover_layout(interfaces: &Vec<UsbInterface>) -> (layout: Option<UsbLayout>)
    ensures
        layout == first_layout(interfaces@, 0),
{
    for i in 0..interfaces.len()
        invariant
            first_layout(interfaces@, 0) == first_layout(interfaces@, i as int),
    {
        match layout_from_interface(&interfaces[i]) {
            Some(layout) => {
                return Some(layout);
            },
            None => {},
        }
    }
    None
}

/// Failure of the wait for a reset sensor.
#[derive(Debug, PartialEq, Eq)]
pub enum ReenumerationError {
    /// The message of the USB layer.
    Usb(String),
    /// The sensor never disappeared.
    DetachTimedOut { timeout: Duration },
    /// The sensor disappeared and did not come back in time.
    AttachTimedOut { timeout: Duration },
}

/// What the wait looks at next.
#[derive(Debug, Clone, Copy, PartialEq, Eq)]
pub enum ReenumerationPhase {
    /// Whether the sensor is still on the bus.
    Detaching,
    /// Whether there is time left to open the sensor.
    Attaching,
    /// What opening it came to.
    Opening,
}

/// What was seen.
#[derive(Debug, Clone, PartialEq, Eq)]
pub enum ReenumerationEvent {
    /// The sensor is, or is not, on the bus, before or after the deadline.
    Bus { present: bool, expired: bool },
    /// The time before another attempt to open.
    Clock { expired: bool },
    Opened,
    OpenFailed { kind: GoodixUsbErrorKind, text: String },
}

/// What to do about it.
#[derive(Debug, PartialEq, Eq)]
pub enum ReenumerationAction {
    /// Go on with a phase at once.
    Continue(ReenumerationPhase),
    /// Wait for the poll interval, then go on with a phase.
    WaitThen(ReenumerationPhase),
    Finished,
    Failed(ReenumerationError),
    /// The event does not belong to the phase.
    OutOfOrder,
}

/// The action on an event in a phase: the sensor must first disappear, and then
/// be opened, both before the deadline. An opening that finds no device is
/// tried again; any other failure is final.
pub open spec fn reenumeration_spec(
    phase: ReenumerationPhase,
    event: ReenumerationEvent,
    timeout: Duration,
) -> ReenumerationAction {
    match (phase, event) {
        (ReenumerationPhase::Detaching, ReenumerationEvent::Bus { present, expired }) => {
            if !present {
                ReenumerationAction::Continue(ReenumerationPhase::Attaching)
            } else if expired {
                ReenumerationAction::Failed(ReenumerationError::DetachTimedOut { timeout })
            } else {
                ReenumerationAction::WaitThen(ReenumerationPhase::Detaching)
            }
        },
        (ReenumerationPhase::Attaching, ReenumerationEvent::Clock { expired }) => {
            if expired {
                ReenumerationAction::Failed(ReenumerationError::AttachTimedOut { timeout })
            } else {
                ReenumerationAction::Continue(ReenumerationPhase::Opening)
            }
        },
        (ReenumerationPhase::Opening, ReenumerationEvent::Opened) => ReenumerationAction::Finished,
        (ReenumerationPhase::Opening, ReenumerationEvent::OpenFailed { kind, text }) => {
            if kind is NoDevice || kind is NotFound {
                ReenumerationAction::WaitThen(ReenumerationPhase::Attaching)
            } else {
                ReenumerationAction::Failed(ReenumerationError::Usb(text))
            }
        },
        _ => ReenumerationAction::OutOfOrder,
    }
}

/// Decides what to do about an event.
pub fn next_reenumeration_action(
    phase: ReenumerationPhase,
    event: ReenumerationEvent,
    timeout: Duration,
) -> (action: ReenumerationAction)
    ensures
        action == reenumeration_spec(phase, event, timeout),
{
    match (phase, event) {
        (ReenumerationPhase::Detaching, ReenumerationEvent::Bus { present, expired }) => {
            if !present {
                ReenumerationAction::Continue(ReenumerationPhase::Attaching)
            } else if expired {
                ReenumerationAction::Failed(ReenumerationError::DetachTimedOut { timeout })
            } else {
                ReenumerationAction::WaitThen(ReenumerationPhase::Detaching)
            }
        },
        (ReenumerationPhase::Attaching, ReenumerationEvent::Clock { expired }) => {
            if expired {
                ReenumerationAction::Failed(ReenumerationError::AttachTimedOut { timeout })
            } else {
                ReenumerationAction::Continue(ReenumerationPhase::Opening)
            }
        },
        (ReenumerationPhase::Opening, ReenumerationEvent::Opened) => ReenumerationAction::Finished,
        (ReenumerationPhase::Opening, ReenumerationEvent::OpenFailed { kind, text }) => {
            match kind {
                GoodixUsbErrorKind::NoDevice | GoodixUsbErrorKind::NotFound => {
                    ReenumerationAction::WaitThen(ReenumerationPhase::Attaching)
                },
                _ => ReenumerationAction::Failed(ReenumerationError::Usb(text)),
            }
        },
        _ => ReenumerationAction::OutOfOrder,
    }
}

/// A sensor is taken as back only in an opening, and openings are tried only
/// after it was seen to be gone: no event in the first phase leads anywhere but
/// to the wait for its disappearance, unless it is absent.
pub proof fn lemma_reenumeration_needs_absence(
    phase: ReenumerationPhase,
    event: ReenumerationEvent,
    timeout: Duration,
)
    ensures
        ({
            let action = reenumeration_spec(phase, event, timeout);
            &&& action is Finished ==> phase is Opening && event is Opened
            &&& action == ReenumerationAction::Continue(ReenumerationPhase::Opening)
                ==> phase is Attaching && event == (ReenumerationEvent::Clock { expired: false })
            &&& action == ReenumerationAction::Continue(ReenumerationPhase::Attaching)
                ==> phase is Detaching && event is Bus && !event->present
        }),
{
}

/// How long to wait before the next look, with `remaining` milliseconds to the
/// deadline.
pub fn poll_wait_millis(remaining: u64) -> (wait: u64)
    ensures
        wait == if remaining < REENUMERATION_POLL_INTERVAL_MILLIS {
            remaining
        } else {
            REENUMERATION_POLL_INTERVAL_MILLIS
        },
{
    if remaining < REENUMERATION_POLL_INTERVAL_MILLIS {
        remaining
    } else {
        REENUMERATION_POLL_INTERVAL_MILLIS
    }
}

impl ReenumerationError {
    /// The message, with the given text for the time that was allowed.
    pub open spec fn message_within_spec(&self, allowed: Seq<char>) -> Seq<char> {
        match self {
            ReenumerationError::Usb(error) => {
                "USB error while waiting for Goodix re-enumeration: "@ + error@
            },
            ReenumerationError::DetachTimedOut { .. } => {
                "Goodix 27c6:550a did not detach within the "@ + allowed
                    + " re-enumeration deadline"@
            },
            ReenumerationError::AttachTimedOut { .. } => {
                "Goodix 27c6:550a detached but did not reattach and reopen within the "@ + allowed
                    + " re-enumeration deadline"@
            },
        }
    }

    /// The message, with the given text for the time that was allowed.
    pub fn message_within(&self, allowed: &str) -> (text: String)
        ensures
            text@ == self.message_within_spec(allowed@),
    {
        match self {
            ReenumerationError::Usb(error) => {
                let mut out: String =
                    "USB error while waiting for Goodix re-enumeration: ".to_owned();
                out.append(error.as_str());
                out
            },
            ReenumerationError::DetachTimedOut { .. } => {
                let mut out: String = "Goodix 27c6:550a did not detach within the ".to_owned();
                out.append(allowed);
                out.append(" re-enumeration deadline");
                out
            },
            ReenumerationError::AttachTimedOut { .. } => {
                let mut out: String =
                    "Goodix 27c6:550a detached but did not reattach and reopen within the ".to_owned();
                out.append(allowed);
                out.append(" re-enumeration deadline");
                out
            },
        }
    }

    pub open spec fn message_spec(&self) -> Seq<char> {
        match self {
            ReenumerationError::Usb(_) => self.message_within_spec(Seq::empty()),
            ReenumerationError::DetachTimedOut { timeout } => self.message_within_spec(
                text::duration_text(*timeout),
            ),
            ReenumerationError::AttachTimedOut { timeout } => self.message_within_spec(
                text::duration_text(*timeout),
            ),
        }
    }

    /// The message of this error.
    pub fn message(&self) -> (text: String)
        ensures
            text@ == self.message_spec(),
    {
        match self {
            ReenumerationError::Usb(_) => {
                proof {
                    reveal_strlit("");
                }
                self.message_within("")
            },
            ReenumerationError::DetachTimedOut { timeout } => self.message_within(
                text::format_duration(*timeout).as_str(),
            ),
            ReenumerationError::AttachTimedOut { timeout } => self.message_within(
                text::format_duration(*timeout).as_str(),
            ),
        }
    }
}

/// A bulk endpoint of a direction.
pub open spec fn is_bulk(endpoint: UsbEndpoint, is_in: bool) -> bool {
    endpoint.bulk && endpoint.is_in == is_in
}

proof fn lemma_last_bulk(endpoints: Seq<UsbEndpoint>, is_in: bool, n: nat)
    requires
        n <= endpoints.len(),
    ensures
        match last_bulk(endpoints, is_in, n) {
            Some(address) => exists|j: int|
                0 <= j < n && is_bulk(#[trigger] endpoints[j], is_in) && endpoints[j].address
                    == address && forall|k: int|
                    j < k < n ==> !is_bulk(#[trigger] endpoints[k], is_in),
            None => forall|k: int| 0 <= k < n ==> !is_bulk(#[trigger] endpoints[k], is_in),
        },
    decreases n,
{
    if n > 0 {
        lemma_last_bulk(endpoints, is_in, (n - 1) as nat);
        assert(is_bulk(endpoints[n - 1], is_in) || !is_bulk(endpoints[n - 1], is_in));
    }
}

proof fn lemma_largest_bulk_packet(endpoints: Seq<UsbEndpoint>, n: nat)
    requires
        n <= endpoints.len(),
    ensures
        forall|k: int|
            0 <= k < n && (#[trigger] endpoints[k]).bulk ==> endpoints[k].max_packet_size
                <= largest_bulk_packet(endpoints, n),
        largest_bulk_packet(endpoints, n) == 0 || exists|k: int|
            0 <= k < n && (#[trigger] endpoints[k]).bulk && endpoints[k].max_packet_size
                == largest_bulk_packet(endpoints, n),
    decreases n,
{
    if n > 0 {
        lemma_largest_bulk_packet(endpoints, (n - 1) as nat);
        assert(endpoints[n - 1].bulk || !endpoints[n - 1].bulk);
    }
}

/// A layout takes its endpoints from the interface, each from its own direction and
/// the last of its kind, and its packet size is the largest of the bulk endpoints;
/// there is one exactly when both directions have an endpoint.
pub proof fn lemma_layout(number: u8, endpoints: Seq<UsbEndpoint>)
    ensures
        layout_of(number, endpoints) is Some <==> (exists|j: int|
            0 <= j < endpoints.len() && is_bulk(#[trigger] endpoints[j], true)) && (exists|j: int|
            0 <= j < endpoints.len() && is_bulk(#[trigger] endpoints[j], false)),
        layout_of(number, endpoints) matches Some(layout) ==> {
            &&& layout.interface == number
            &&& exists|j: int|
                0 <= j < endpoints.len() && is_bulk(#[trigger] endpoints[j], true)
                    && endpoints[j].address == layout.bulk_in && forall|k: int|
                    j < k < endpoints.len() ==> !is_bulk(#[trigger] endpoints[k], true)
            &&& exists|j: int|
                0 <= j < endpoints.len() && is_bulk(#[trigger] endpoints[j], false)
                    && endpoints[j].address == layout.bulk_out && forall|k: int|
                    j < k < endpoints.len() ==> !is_bulk(#[trigger] endpoints[k], false)
            &&& forall|k: int|
                0 <= k < endpoints.len() && (#[trigger] endpoints[k]).bulk
                    ==> endpoints[k].max_packet_size <= layout.max_packet_size
            &&& layout.max_packet_size == 0 || exists|k: int|
                0 <= k < endpoints.len() && (#[trigger] endpoints[k]).bulk
                    && endpoints[k].max_packet_size == layout.max_packet_size
        },
{
    lemma_last_bulk(endpoints, true, endpoints.len());
    lemma_last_bulk(endpoints, false, endpoints.len());
    lemma_largest_bulk_packet(endpoints, endpoints.len());
}

/// The layout found is that of the first interface that has one.
pub proof fn lemma_first_layout(interfaces: Seq<UsbInterface>, from: int)
    requires
        0 <= from <= interfaces.len(),
    ensures
        match first_layout(interfaces, from) {
            Some(layout) => exists|j: int|
                from <= j < interfaces.len() && layout_of(
                    (#[trigger] interfaces[j]).number,
                    interfaces[j].endpoints@,
                ) == Some(layout) && forall|k: int|
                    from <= k < j ==> layout_of(
                        (#[trigger] interfaces[k]).number,
                        interfaces[k].endpoints@,
                    ) is None,
            None => forall|k: int|
                from <= k < interfaces.len() ==> layout_of(
                    (#[trigger] interfaces[k]).number,
                    interfaces[k].endpoints@,
                ) is None,
        },
    decreases interfaces.len() - from,
{
    if from < interfaces.len() {
        lemma_first_layout(interfaces, from + 1);
        assert(layout_of(interfaces[from].number, interfaces[from].endpoints@) is Some || layout_of(
            interfaces[from].number,
            interfaces[from].endpoints@,
        ) is None);
    }
}

} // verus!
