//! Serial ports as the operating system reports them.

use crate::serial::error::{plain_error, SerialError, SerialErrorKind};
use crate::serial::text::{blank, chars_of, code_point, is_blank};
use vstd::prelude::*;

verus! {

/// USB identifiers reported by Windows for a serial device.
#[derive(Clone, Copy, Debug, PartialEq, Eq, PartialOrd, Ord, Structural)]
pub struct UsbIdentifiers {
    /// Vendor identifier from system device properties.
    pub vid: u16,
    /// Product identifier from system device properties.
    pub pid: u16,
}

/// One structured serial port reported by the operating system.
#[derive(Debug)]
pub struct SerialPortDescriptor {
    stable_id: String,
    port_name: String,
    friendly_name: Option<String>,
    manufacturer: Option<String>,
    usb: Option<UsbIdentifiers>,
}

/// One serial port, as plain values.
#[verifier::ext_equal]
pub struct PortModel {
    pub stable_id: Seq<char>,
    pub port_name: Seq<char>,
    pub friendly_name: Option<Seq<char>>,
    pub manufacturer: Option<Seq<char>>,
    pub usb: Option<UsbIdentifiers>,
}

/// The view of an optional text.
pub open spec fn text_view(text: Option<String>) -> Option<Seq<char>> {
    match text {
        Some(text) => Some(text@),
        None => None,
    }
}

impl View for SerialPortDescriptor {
    type V = PortModel;

    closed spec fn view(&self) -> PortModel {
        PortModel {
            stable_id: self.stable_id@,
            port_name: self.port_name@,
            friendly_name: text_view(self.friendly_name),
            manufacturer: text_view(self.manufacturer),
            usb: self.usb,
        }
    }
}

/// A label as it is kept: nothing where it has nothing but white space.
pub open spec fn label(text: Seq<char>) -> Option<Seq<char>> {
    if is_blank(text) {
        None
    } else {
        Some(text)
    }
}

impl PortModel {
    /// A port without labels.
    pub open spec fn bare(stable_id: Seq<char>, port_name: Seq<char>) -> PortModel {
        PortModel { stable_id, port_name, friendly_name: None, manufacturer: None, usb: None }
    }

    /// The port as text: its name, and its identity in brackets.
    pub open spec fn text(self) -> Seq<char> {
        self.port_name + " ("@ + self.stable_id + ")"@
    }
}

impl Clone for SerialPortDescriptor {
    fn clone(&self) -> (copy: Self)
        ensures
            copy == *self,
    {
        SerialPortDescriptor {
            stable_id: self.stable_id.clone(),
            port_name: self.port_name.clone(),
            friendly_name: crate::event::copy_text(&self.friendly_name),
            manufacturer: crate::event::copy_text(&self.manufacturer),
            usb: self.usb,
        }
    }
}

fn non_empty(value: &str) -> (kept: Option<String>)
    ensures
        text_view(kept) == label(value@),
{
    if blank(value) {
        None
    } else {
        Some(value.to_owned())
    }
}

impl SerialPortDescriptor {
    /// Creates a descriptor from a stable system instance ID and a usable port name.
    pub fn new(stable_id: &str, port_name: &str) -> (created: Result<Self, SerialError>)
        ensures
            created is Ok <==> !is_blank(stable_id@) && !is_blank(port_name@),
            created matches Ok(port) ==> port@ == PortModel::bare(stable_id@, port_name@),
            created matches Err(error) ==> error@ == plain_error(
                SerialErrorKind::InvalidPort,
                "serial stable ID and port name must be non-empty"@,
            ),
    {
        if blank(stable_id) || blank(port_name) {
            return Err(
                SerialError::invalid_port("serial stable ID and port name must be non-empty"),
            );
        }
        Ok(
            SerialPortDescriptor {
                stable_id: stable_id.to_owned(),
                port_name: port_name.to_owned(),
                friendly_name: None,
                manufacturer: None,
                usb: None,
            },
        )
    }

    /// Adds a system-provided friendly name.
    pub fn with_friendly_name(self, value: &str) -> (port: Self)
        ensures
            port@ == (PortModel { friendly_name: label(value@), ..self@ }),
    {
        let mut port = self;
        port.friendly_name = non_empty(value);
        port
    }

    /// Adds a system-provided manufacturer.
    pub fn with_manufacturer(self, value: &str) -> (port: Self)
        ensures
            port@ == (PortModel { manufacturer: label(value@), ..self@ }),
    {
        let mut port = self;
        port.manufacturer = non_empty(value);
        port
    }

    /// Adds USB VID/PID only when Windows supplied those identifiers.
    pub fn with_usb_identifiers(self, value: UsbIdentifiers) -> (port: Self)
        ensures
            port@ == (PortModel { usb: Some(value), ..self@ }),
    {
        let mut port = self;
        port.usb = Some(value);
        port
    }

    /// Stable Windows device-instance identity; independent of the current COM assignment.
    pub fn stable_id(&self) -> (stable_id: &str)
        ensures
            stable_id@ == self@.stable_id,
    {
        self.stable_id.as_str()
    }

    /// Current system port name such as `COM4`.
    pub fn port_name(&self) -> (port_name: &str)
        ensures
            port_name@ == self@.port_name,
    {
        self.port_name.as_str()
    }

    /// Optional friendly name reported by the system.
    pub fn friendly_name(&self) -> (name: Option<&str>)
        ensures
            name is Some <==> self@.friendly_name is Some,
            name matches Some(name) ==> Some(name@) == self@.friendly_name,
    {
        match &self.friendly_name {
            Some(name) => Some(name.as_str()),
            None => None,
        }
    }

    /// Optional manufacturer reported by the system.
    pub fn manufacturer(&self) -> (name: Option<&str>)
        ensures
            name is Some <==> self@.manufacturer is Some,
            name matches Some(name) ==> Some(name@) == self@.manufacturer,
    {
        match &self.manufacturer {
            Some(name) => Some(name.as_str()),
            None => None,
        }
    }

    /// Optional VID/PID reported by system hardware properties.
    pub fn usb_identifiers(&self) -> (usb: Option<UsbIdentifiers>)
        ensures
            usb == self@.usb,
    {
        self.usb
    }

    /// Returns the port as text.
    pub fn text(&self) -> (text: String)
        ensures
            text@ == self@.text(),
    {
        let mut text: String = self.port_name.clone();
        text.append(" (");
        text.append(self.stable_id.as_str());
        text.append(")");
        text
    }
}

/// Injectable structured serial discovery boundary.
pub trait SerialDiscovery {
    /// Returns present ports in stable-ID order.
    fn discover(&self) -> Result<Vec<SerialPortDescriptor>, SerialError>;
}

/// Whether one text comes before another: by the first code point in which they differ, and a text
/// before every longer one that it begins.
pub open spec fn text_before(left: Seq<char>, right: Seq<char>) -> bool
    decreases left.len(),
{
    if right.len() == 0 {
        false
    } else if left.len() == 0 {
        true
    } else if left[0] as int != right[0] as int {
        (left[0] as int) < (right[0] as int)
    } else {
        text_before(left.skip(1), right.skip(1))
    }
}

/// How two texts are ordered.
#[derive(Clone, Copy, Debug, PartialEq, Eq, Structural)]
pub enum TextOrder {
    Before,
    Same,
    After,
}

/// Returns how two texts are ordered.
fn order_texts(left: &str, right: &str) -> (order: TextOrder)
    ensures
        order == TextOrder::Before <==> text_before(left@, right@),
        order == TextOrder::After <==> text_before(right@, left@),
        order == TextOrder::Same <==> left@ == right@,
{
    let one = chars_of(left);
    let other = chars_of(right);
    let mut k: usize = 0;
    proof {
        assert(one@.skip(0) =~= one@);
        assert(other@.skip(0) =~= other@);
    }
    while k < one.len() && k < other.len()
        invariant
            k <= one.len(),
            k <= other.len(),
            one@ == left@,
            other@ == right@,
            one@.take(k as int) =~= other@.take(k as int),
            text_before(left@, right@) == text_before(one@.skip(k as int), other@.skip(k as int)),
            text_before(right@, left@) == text_before(other@.skip(k as int), one@.skip(k as int)),
        decreases one.len() - k,
    {
        let a: u32 = code_point(one[k]);
        let b: u32 = code_point(other[k]);
        let ghost left_rest = one@.skip(k as int);
        let ghost right_rest = other@.skip(k as int);
        proof {
            assert(left_rest[0] == one@[k as int]);
            assert(right_rest[0] == other@[k as int]);
            assert(left_rest.skip(1) =~= one@.skip(k + 1));
            assert(right_rest.skip(1) =~= other@.skip(k + 1));
        }
        if a < b {
            assert(left@[k as int] != right@[k as int]);
            return TextOrder::Before;
        }
        if b < a {
            assert(left@[k as int] != right@[k as int]);
            return TextOrder::After;
        }
        proof {
            assert(one@[k as int] == other@[k as int]);
            assert(one@.take(k + 1) =~= one@.take(k as int).push(one@[k as int]));
            assert(other@.take(k + 1) =~= other@.take(k as int).push(other@[k as int]));
        }
        k += 1;
    }
    if k < other.len() {
        assert(one@.len() < other@.len());
        TextOrder::Before
    } else if k < one.len() {
        TextOrder::After
    } else {
        assert(one@.take(k as int) =~= one@);
        assert(other@.take(k as int) =~= other@);
        TextOrder::Same
    }
}

/// The views of a list of ports.
pub open spec fn port_models(ports: Seq<SerialPortDescriptor>) -> Seq<PortModel> {
    ports.map_values(|port: SerialPortDescriptor| port@)
}

/// Whether ports are strictly in the order of their identities.
pub open spec fn in_identity_order(ports: Seq<PortModel>) -> bool {
    forall|i: int, j: int|
        #![trigger ports[i], ports[j]]
        0 <= i < j < ports.len() ==> text_before(ports[i].stable_id, ports[j].stable_id)
}

/// Whether `found[k]` is the first of `found` with its identity.
pub open spec fn is_first_report(found: Seq<PortModel>, k: int) -> bool {
    0 <= k < found.len() && forall|j: int|
        0 <= j < k ==> (#[trigger] found[j]).stable_id != found[k].stable_id
}

/// Whether `port` is the first report of its identity.
#[verifier::opaque]
pub open spec fn reported_first(found: Seq<PortModel>, port: PortModel) -> bool {
    exists|k: int| #[trigger] is_first_report(found, k) && found[k] == port
}

/// Whether `ports` is what discovery makes of the reports `found`: in the order of identities, and
/// of each identity the first report.
pub open spec fn discovered(found: Seq<PortModel>, ports: Seq<PortModel>) -> bool {
    &&& in_identity_order(ports)
    &&& forall|i: int| 0 <= i < ports.len() ==> reported_first(found, #[trigger] ports[i])
    &&& forall|port: PortModel| #[trigger] reported_first(found, port) ==> ports.contains(port)
}

/// The order of texts is strict: no text comes before itself, and of two texts at most one comes
/// before the other.
pub proof fn law_text_order_is_strict(left: Seq<char>, right: Seq<char>)
    ensures
        !text_before(left, left),
        text_before(left, right) ==> !text_before(right, left) && left != right,
    decreases left.len(),
{
    if left.len() > 0 {
        law_text_order_is_strict(left.skip(1), left.skip(1));
        if right.len() > 0 {
            law_text_order_is_strict(left.skip(1), right.skip(1));
        }
    }
}

/// The order of texts is transitive.
pub proof fn law_text_order_is_transitive(first: Seq<char>, second: Seq<char>, third: Seq<char>)
    requires
        text_before(first, second),
        text_before(second, third),
    ensures
        text_before(first, third),
    decreases first.len(),
{
    if first.len() > 0 && second.len() > 0 && third.len() > 0 && first[0] as int == second[0] as int
        && second[0] as int == third[0] as int {
        law_text_order_is_transitive(first.skip(1), second.skip(1), third.skip(1));
    }
}

proof fn lemma_first_report(found: Seq<PortModel>, k: int) -> (first: int)
    requires
        0 <= k < found.len(),
    ensures
        first <= k,
        is_first_report(found, first),
        found[first].stable_id == found[k].stable_id,
        reported_first(found, found[first]),
    decreases k,
{
    reveal(reported_first);
    if exists|j: int| 0 <= j < k && (#[trigger] found[j]).stable_id == found[k].stable_id {
        let j = choose|j: int| 0 <= j < k && (#[trigger] found[j]).stable_id == found[k].stable_id;
        lemma_first_report(found, j)
    } else {
        k
    }
}

/// One more report is the first of its identity where no earlier report has that identity, and
/// changes nothing about the others.
proof fn lemma_one_more_report(found: Seq<PortModel>, k: int, port: PortModel)
    requires
        0 <= k < found.len(),
    ensures
        reported_first(found.take(k), port) ==> reported_first(found.take(k + 1), port),
        reported_first(found.take(k + 1), port) ==> reported_first(found.take(k), port) || (port
            == found[k] && is_first_report(found, k)),
        is_first_report(found, k) ==> reported_first(found.take(k + 1), found[k]),
{
    reveal(reported_first);
    let before = found.take(k);
    let after = found.take(k + 1);
    if reported_first(before, port) {
        let m = choose|m: int| #[trigger] is_first_report(before, m) && before[m] == port;
        assert forall|j: int| 0 <= j < m implies (#[trigger] after[j]).stable_id
            != after[m].stable_id by {
            assert(before[j] == after[j]);
        }
        assert(is_first_report(after, m) && after[m] == port);
    }
    if reported_first(after, port) {
        let m = choose|m: int| #[trigger] is_first_report(after, m) && after[m] == port;
        if m < k {
            assert forall|j: int| 0 <= j < m implies (#[trigger] before[j]).stable_id
                != before[m].stable_id by {
                assert(before[j] == after[j]);
            }
            assert(is_first_report(before, m) && before[m] == port);
        } else {
            assert forall|j: int| 0 <= j < k implies (#[trigger] found[j]).stable_id
                != found[k].stable_id by {
                assert(after[j] == found[j]);
            }
        }
    }
    if is_first_report(found, k) {
        assert forall|j: int| 0 <= j < k implies (#[trigger] after[j]).stable_id
            != after[k].stable_id by {
            assert(after[j] == found[j]);
        }
        assert(is_first_report(after, k) && after[k] == found[k]);
    }
}

proof fn lemma_reported_again(
    found: Seq<PortModel>,
    ports: Seq<PortModel>,
    k: int,
    place: int,
)
    requires
        0 <= k < found.len(),
        discovered(found.take(k), ports),
        0 <= place < ports.len(),
        ports[place].stable_id == found[k].stable_id,
    ensures
        discovered(found.take(k + 1), ports),
{
    let before = found.take(k);
    let after = found.take(k + 1);
    assert(!is_first_report(found, k)) by {
        reveal(reported_first);
        assert(reported_first(before, ports[place]));
        let m = choose|m: int| #[trigger] is_first_report(before, m) && before[m] == ports[place];
        assert(found[m] == before[m]);
    }
    assert forall|i: int| 0 <= i < ports.len() implies reported_first(
        after,
        #[trigger] ports[i],
    ) by {
        lemma_one_more_report(found, k, ports[i]);
    }
    assert forall|port: PortModel| #[trigger] reported_first(after, port) implies ports.contains(
        port,
    ) by {
        lemma_one_more_report(found, k, port);
    }
}

proof fn lemma_newly_reported(
    found: Seq<PortModel>,
    ports: Seq<PortModel>,
    k: int,
    place: int,
)
    requires
        0 <= k < found.len(),
        discovered(found.take(k), ports),
        0 <= place <= ports.len(),
        forall|i: int|
            0 <= i < place ==> text_before(
                (#[trigger] ports[i]).stable_id,
                found[k].stable_id,
            ),
        place < ports.len() ==> text_before(found[k].stable_id, ports[place].stable_id),
    ensures
        discovered(found.take(k + 1), ports.insert(place, found[k])),
{
    let port = found[k];
    let before = found.take(k);
    let after = found.take(k + 1);
    let more = ports.insert(place, port);
    assert forall|i: int| place <= i < ports.len() implies text_before(
        port.stable_id,
        (#[trigger] ports[i]).stable_id,
    ) by {
        if i > place {
            law_text_order_is_transitive(
                port.stable_id,
                ports[place].stable_id,
                ports[i].stable_id,
            );
        }
    }
    assert forall|i: int| 0 <= i < ports.len() implies (#[trigger] ports[i]).stable_id
        != port.stable_id by {
        if i < place {
            law_text_order_is_strict(ports[i].stable_id, port.stable_id);
        } else {
            law_text_order_is_strict(port.stable_id, ports[i].stable_id);
        }
    }
    assert(in_identity_order(more)) by {
        assert forall|i: int, j: int| #![trigger more[i], more[j]] 0 <= i < j < more.len() implies
            text_before(more[i].stable_id, more[j].stable_id) by {
            if i < place {
                assert(more[i] == ports[i]);
                if j < place {
                    assert(more[j] == ports[j]);
                } else if j > place {
                    assert(more[j] == ports[j - 1]);
                }
            } else if i == place {
                assert(more[j] == ports[j - 1]);
            } else {
                assert(more[i] == ports[i - 1]);
                assert(more[j] == ports[j - 1]);
            }
        }
    }
    assert(is_first_report(found, k)) by {
        assert forall|j: int| 0 <= j < k implies (#[trigger] found[j]).stable_id
            != found[k].stable_id by {
            assert(before[j] == found[j]);
            let first = lemma_first_report(before, j);
            assert(ports.contains(before[first]));
            let i = choose|i: int| 0 <= i < ports.len() && ports[i] == before[first];
            assert(ports[i].stable_id != port.stable_id);
        }
    }
    assert forall|i: int| 0 <= i < more.len() implies reported_first(after, #[trigger] more[i]) by {
        lemma_one_more_report(found, k, more[i]);
        if i < place {
            assert(more[i] == ports[i]);
        } else if i > place {
            assert(more[i] == ports[i - 1]);
        }
    }
    assert forall|other: PortModel| #[trigger] reported_first(after, other) implies more.contains(
        other,
    ) by {
        lemma_one_more_report(found, k, other);
        if reported_first(before, other) {
            let i = choose|i: int| 0 <= i < ports.len() && ports[i] == other;
            if i < place {
                assert(more[i] == other);
            } else {
                assert(more[i + 1] == other);
            }
        } else {
            assert(more[place] == other);
        }
    }
}

/// Orders reported ports by their identities, and keeps the first report of each identity.
pub fn collect_ports(found: Vec<SerialPortDescriptor>) -> (ports: Vec<SerialPortDescriptor>)
    ensures
        discovered(port_models(found@), port_models(ports@)),
{
    let ghost reports = port_models(found@);
    let mut ports: Vec<SerialPortDescriptor> = Vec::new();
    let mut k: usize = 0;
    assert(discovered(reports.take(0), port_models(ports@))) by {
        reveal(reported_first);
    }
    while k < found.len()
        invariant
            k <= found.len(),
            reports == port_models(found@),
            discovered(reports.take(k as int), port_models(ports@)),
        decreases found.len() - k,
    {
        let ghost before = port_models(ports@);
        assert(reports[k as int] == found@[k as int]@);
        let mut place: usize = 0;
        let mut known: bool = false;
        while place < ports.len() && !known && order_texts(
            ports[place].stable_id(),
            found[k].stable_id(),
        ) != TextOrder::After
            invariant
                k < found.len(),
                place <= ports.len(),
                before == port_models(ports@),
                forall|i: int|
                    0 <= i < place ==> text_before(
                        (#[trigger] before[i]).stable_id,
                        found@[k as int]@.stable_id,
                    ),
                known ==> place < ports.len() && before[place as int].stable_id
                    == found@[k as int]@.stable_id,
            decreases ports.len() - place, !known as int,
        {
            assert(before[place as int] == ports@[place as int]@);
            if order_texts(ports[place].stable_id(), found[k].stable_id()) == TextOrder::Same {
                known = true;
            } else {
                place += 1;
            }
        }
        if known {
            proof {
                lemma_reported_again(reports, before, k as int, place as int);
            }
        } else {
            if place < ports.len() {
                assert(before[place as int] == ports@[place as int]@);
            }
            ports.insert(place, found[k].clone());
            proof {
                lemma_newly_reported(reports, before, k as int, place as int);
                assert(port_models(ports@) =~= before.insert(place as int, reports[k as int]));
            }
        }
        k += 1;
    }
    assert(reports.take(k as int) =~= reports);
    ports
}

/// What discovery returns is fixed by what was reported.
pub proof fn law_discovery_is_deterministic(
    found: Seq<PortModel>,
    one: Seq<PortModel>,
    other: Seq<PortModel>,
)
    requires
        discovered(found, one),
        discovered(found, other),
    ensures
        one == other,
    decreases one.len(),
{
    lemma_discovered_prefix(found, one, other, one.len() as int);
    lemma_discovered_prefix(found, other, one, other.len() as int);
    assert(one =~= other);
}

proof fn lemma_discovered_prefix(
    found: Seq<PortModel>,
    one: Seq<PortModel>,
    other: Seq<PortModel>,
    count: int,
)
    requires
        discovered(found, one),
        discovered(found, other),
        0 <= count <= one.len(),
    ensures
        count <= other.len(),
        forall|i: int| 0 <= i < count ==> one[i] == other[i],
    decreases count,
{
    if count > 0 {
        lemma_discovered_prefix(found, one, other, count - 1);
        let place = count - 1;
        assert(reported_first(found, one[place]));
        assert(other.contains(one[place]));
        let i = choose|i: int| 0 <= i < other.len() && other[i] == one[place];
        if i < place {
            assert(one[i] == other[i]);
            law_text_order_is_strict(one[i].stable_id, one[place].stable_id);
        } else if i > place {
            // The other list has a port before this one that the first list does not have there.
            assert(reported_first(found, other[place]));
            assert(one.contains(other[place]));
            let j = choose|j: int| 0 <= j < one.len() && one[j] == other[place];
            assert(text_before(other[place].stable_id, other[i].stable_id));
            law_text_order_is_strict(other[place].stable_id, other[i].stable_id);
            if j < place {
                assert(one[j] == other[j]);
                law_text_order_is_strict(other[j].stable_id, other[place].stable_id);
            } else if j > place {
                assert(text_before(one[place].stable_id, one[j].stable_id));
            }
        }
    }
}

} // verus!
