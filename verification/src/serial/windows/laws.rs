//! What the Windows boundary promises of codes, names, waits and discovered ports.

use crate::serial::discovery::{
    discovered, is_first_report, reported_first, text_before, PortModel,
};
use crate::serial::error::{SerialErrorKind, SerialErrorModel};
use crate::serial::text::{hex_digit, is_white_space, upper, utf16};
use crate::serial::windows::transfer::{next_stage, EventModel, StageModel};
use crate::serial::windows::{
    bare_name, code_error, component_from, device_prefix, discard_begun, first_usb,
    instance_id_size_of, is_com, is_openable, kind_of_code, marker_at, next_device_of, path_of,
    port_name_size_of, ports_among, property_size_of, usb_of, wait_ms_of, DeviceReport, SizeAnswer,
    TransferDirection,
};
use vstd::prelude::*;

verus! {

/// A finite wait ends at its time or less than a millisecond after it, as far as a finite limit
/// reaches; a longer wait takes the largest finite limit. A longer wait never gets a smaller limit.
pub proof fn law_wait_ends_within_a_millisecond(nanos: u128, longer: u128)
    ensures
        nanos <= 4_294_967_294 * 1_000_000 ==> nanos <= wait_ms_of(nanos) * 1_000_000 < nanos
            + 1_000_000,
        nanos > 4_294_967_294 * 1_000_000 ==> wait_ms_of(nanos) == 4_294_967_294,
        nanos <= longer ==> wait_ms_of(nanos) <= wait_ms_of(longer),
{
}

/// The categories of the status codes that have one of their own; every other code is a failure of
/// I/O. The error keeps its code and names the call.
pub proof fn law_codes_have_their_categories(operation: Seq<char>, code: u32)
    ensures
        kind_of_code(code) == SerialErrorKind::AccessDenied <==> code == 5,
        kind_of_code(code) == SerialErrorKind::PortBusy <==> code == 32,
        kind_of_code(code) == SerialErrorKind::NotFound <==> code == 2 || code == 3,
        kind_of_code(code) == SerialErrorKind::Disconnected <==> code == 6 || code == 31 || code
            == 995 || code == 1167,
        kind_of_code(code) == SerialErrorKind::DeadlineExceeded <==> code == 121,
        code != 2 && code != 3 && code != 5 && code != 6 && code != 31 && code != 32 && code != 121
            && code != 995 && code != 1167 ==> kind_of_code(code) == SerialErrorKind::Io,
        code_error(operation, code).kind == kind_of_code(code),
        code_error(operation, code).os_code == Some(code),
        code_error(operation, code).message == operation + " failed"@,
{
}

/// A serial name is `COM` in either case and one or more decimal digits, and nothing else.
pub proof fn law_serial_names(name: Seq<char>)
    ensures
        is_com(name) <==> {
            &&& name.len() >= 4
            &&& name[0] == 'C' || name[0] == 'c'
            &&& name[1] == 'O' || name[1] == 'o'
            &&& name[2] == 'M' || name[2] == 'm'
            &&& forall|k: int| 3 <= k < name.len() ==> '0' <= #[trigger] name[k] <= '9'
        },
{
}

/// A serial name of at most 64 characters is opened with or without the prefix of a device path,
/// and both ways at the same path; with the prefix twice it is not.
pub proof fn law_a_path_prefix_makes_no_difference(name: Seq<char>)
    requires
        is_com(name),
    ensures
        is_openable(name) <==> name.len() <= 64,
        is_openable(seq!['\\', '\\', '.', '\\'] + name) <==> name.len() <= 64,
        bare_name(name) == name,
        bare_name(seq!['\\', '\\', '.', '\\'] + name) == name,
        device_prefix() == seq!['\\', '\\', '.', '\\'],
        !is_openable(seq!['\\', '\\', '.', '\\'] + (seq!['\\', '\\', '.', '\\'] + name)),
{
    let prefix = seq!['\\', '\\', '.', '\\'];
    let path = prefix + name;
    assert(path.take(4) =~= prefix);
    assert(path.skip(4) =~= name);
    assert(name.take(4)[0] == name[0]);
    assert(prefix[0] == '\\');
    assert((prefix + path).take(4) =~= prefix);
    assert((prefix + path).skip(4) =~= path);
    assert(path[0] == '\\');
}

/// Nothing but a serial name, with or without the prefix, is opened.
pub proof fn law_nothing_else_is_opened(name: Seq<char>)
    ensures
        is_openable(name) ==> is_com(name) || (name.len() > 4 && name.take(4) == seq![
            '\\',
            '\\',
            '.',
            '\\',
        ] && is_com(name.skip(4))),
{
}

/// Whether a hardware ID has `VID_`, `PID_` or the like at a place, in either case.
pub open spec fn names_at(value: Seq<char>, letter: char, k: int) -> bool {
    &&& 0 <= k
    &&& k + 4 <= value.len()
    &&& upper(value[k]) == letter
    &&& upper(value[k + 1]) == 'I'
    &&& upper(value[k + 2]) == 'D'
    &&& value[k + 3] == '_'
}

/// Whether exactly four hexadecimal digits stand at a place.
pub open spec fn four_at(value: Seq<char>, k: int) -> bool {
    &&& 0 <= k
    &&& k + 4 <= value.len()
    &&& forall|j: int| k <= j < k + 4 ==> hex_digit(#[trigger] value[j]) is Some
    &&& k + 4 < value.len() ==> hex_digit(value[k + 4]) is None
}

/// The number that four hexadecimal digits write.
pub open spec fn four_of(value: Seq<char>, k: int) -> int {
    ((hex_digit(value[k])->0 * 16 + hex_digit(value[k + 1])->0) * 16 + hex_digit(value[k + 2])->0)
        * 16 + hex_digit(value[k + 3])->0
}

proof fn lemma_component(value: Seq<char>, letter: char, first: int, k: int)
    requires
        letter == 'V' || letter == 'P',
        0 <= k <= first,
        names_at(value, letter, first) || first == value.len(),
        forall|j: int| 0 <= j < first ==> !#[trigger] names_at(value, letter, j),
    ensures
        ({
            let text = value.map_values(|c: char| upper(c));
            let found = component_from(text, seq![letter, 'I', 'D', '_'], k);
            &&& first == value.len() ==> found is None
            &&& first < value.len() ==> (found is Some <==> four_at(value, first + 4))
            &&& first < value.len() && found is Some ==> found->0 == four_of(value, first + 4)
                && 0 <= found->0 < 65536
        }),
    decreases value.len() - k,
{
    let text = value.map_values(|c: char| upper(c));
    let marker = seq![letter, 'I', 'D', '_'];
    if k < value.len() && k + 4 <= value.len() {
        let part = text.subrange(k, k + 4);
        assert(part[0] == text[k] && part[1] == text[k + 1] && part[2] == text[k + 2] && part[3]
            == text[k + 3]);
        if names_at(value, letter, k) {
            assert(part =~= marker);
        } else {
            assert(part == marker ==> marker[0] == text[k] && marker[1] == text[k + 1] && marker[2]
                == text[k + 2] && marker[3] == text[k + 3]);
        }
        assert(marker_at(text, marker, k) <==> names_at(value, letter, k));
        if k < first {
            lemma_component(value, letter, first, k + 1);
        } else {
            assert forall|j: int| 0 <= j < value.len() implies hex_digit(#[trigger] text[j]) == (
            match hex_digit(value[j]) {
                Some(digit) => Some(digit),
                None => None,
            }) by {}
            let start = first + 4;
            if start + 4 <= value.len() {
                assert(four_at(value, start) ==> hex_digit(value[start]) is Some && hex_digit(
                    value[start + 1],
                ) is Some && hex_digit(value[start + 2]) is Some && hex_digit(value[start + 3])
                    is Some);
            }
        }
    }
}

/// A hardware ID names a device where both its vendor and its product stand in it: each as the
/// first `VID_` and the first `PID_`, in either case, with exactly four hexadecimal digits behind
/// it.
pub proof fn law_hardware_id_names_vendor_and_product(value: Seq<char>, vendor: int, product: int)
    requires
        names_at(value, 'V', vendor) || vendor == value.len(),
        forall|j: int| 0 <= j < vendor ==> !#[trigger] names_at(value, 'V', j),
        names_at(value, 'P', product) || product == value.len(),
        forall|j: int| 0 <= j < product ==> !#[trigger] names_at(value, 'P', j),
    ensures
        usb_of(value) is Some <==> vendor < value.len() && product < value.len() && four_at(
            value,
            vendor + 4,
        ) && four_at(value, product + 4),
        usb_of(value) matches Some(usb) ==> usb.vid == four_of(value, vendor + 4) && usb.pid
            == four_of(value, product + 4),
{
    lemma_component(value, 'V', vendor, 0);
    lemma_component(value, 'P', product, 0);
}

/// The identifiers of a device are those of the first hardware ID that names both; it has none
/// where no hardware ID does.
pub proof fn law_first_naming_hardware_id_counts(ids: Seq<Seq<char>>, k: int)
    requires
        0 <= k <= ids.len(),
        forall|j: int| 0 <= j < k ==> usb_of(#[trigger] ids[j]) is None,
        k < ids.len() ==> usb_of(ids[k]) is Some,
    ensures
        first_usb(ids) == if k < ids.len() {
            usb_of(ids[k])
        } else {
            None
        },
    decreases k,
{
    if k > 0 {
        let rest = ids.skip(1);
        assert forall|j: int| 0 <= j < k - 1 implies usb_of(#[trigger] rest[j]) is None by {
            assert(rest[j] == ids[j + 1]);
        }
        assert(usb_of(ids[0]) is None);
        law_first_naming_hardware_id_counts(rest, k - 1);
    }
}

/// A label as a port shows it: the reported text itself, unless it shows nothing.
pub open spec fn shown(text: Option<String>) -> Option<Seq<char>> {
    match text {
        Some(text) => if exists|k: int|
            0 <= k < text@.len() && !is_white_space(#[trigger] text@[k]) {
            Some(text@)
        } else {
            None
        },
        None => None,
    }
}

/// Whether a port shows what a device reports.
pub open spec fn shows(port: PortModel, device: DeviceReport) -> bool {
    &&& port.stable_id == device.stable_id@
    &&& device.port_name matches Some(name) && port.port_name == name@
    &&& port.friendly_name == shown(device.friendly_name)
    &&& port.manufacturer == shown(device.manufacturer)
    &&& forall|k: int|
        0 <= k < device.hardware_ids@.len() && (forall|j: int|
            0 <= j < k ==> usb_of(#[trigger] device.hardware_ids@[j]@) is None) && usb_of(
            #[trigger] device.hardware_ids@[k]@,
        ) is Some ==> port.usb == usb_of(device.hardware_ids@[k]@)
    &&& (forall|k: int|
        0 <= k < device.hardware_ids@.len() ==> usb_of(#[trigger] device.hardware_ids@[k]@)
            is None) ==> port.usb is None
}

/// Whether a device has a serial name.
pub open spec fn has_serial_name(device: DeviceReport) -> bool {
    device.port_name matches Some(name) && is_com(name@)
}

/// Whether a device is the first of the reported ones with a serial name and its identity.
pub open spec fn first_with_identity(devices: Seq<DeviceReport>, k: int) -> bool {
    &&& 0 <= k < devices.len()
    &&& has_serial_name(devices[k])
    &&& forall|j: int|
        0 <= j < k && has_serial_name(#[trigger] devices[j]) ==> devices[j].stable_id@
            != devices[k].stable_id@
}

proof fn lemma_shows(device: DeviceReport)
    requires
        has_serial_name(device),
    ensures
        shows(device.port(), device),
{
    let ids = device.hardware_ids@.map_values(|text: String| text@);
    assert forall|k: int|
        0 <= k < device.hardware_ids@.len() && (forall|j: int|
            0 <= j < k ==> usb_of(#[trigger] device.hardware_ids@[j]@) is None) && usb_of(
            #[trigger] device.hardware_ids@[k]@,
        ) is Some implies device.port().usb == usb_of(device.hardware_ids@[k]@) by {
        assert forall|j: int| 0 <= j < k implies usb_of(#[trigger] ids[j]) is None by {
            assert(ids[j] == device.hardware_ids@[j]@);
        }
        law_first_naming_hardware_id_counts(ids, k);
    }
    if forall|k: int|
        0 <= k < device.hardware_ids@.len() ==> usb_of(#[trigger] device.hardware_ids@[k]@)
            is None {
        assert forall|j: int| 0 <= j < ids.len() implies usb_of(#[trigger] ids[j]) is None by {
            assert(ids[j] == device.hardware_ids@[j]@);
        }
        law_first_naming_hardware_id_counts(ids, ids.len() as int);
    }
}

/// Whether one of the first `k` devices reports a port.
spec fn reported_before(devices: Seq<DeviceReport>, k: int, port: PortModel) -> bool {
    exists|j: int|
        0 <= j < k && has_serial_name(#[trigger] devices[j]) && port == devices[j].port()
}

/// Each report of a serial device has a place among the ports, behind those of earlier devices.
proof fn lemma_place(devices: Seq<DeviceReport>, k: int) -> (place: int)
    requires
        0 <= k < devices.len(),
        has_serial_name(devices[k]),
    ensures
        0 <= place < ports_among(devices).len(),
        ports_among(devices)[place] == devices[k].port(),
        forall|i: int|
            0 <= i < place ==> reported_before(devices, k, #[trigger] ports_among(devices)[i]),
    decreases devices.len(),
{
    let rest = devices.drop_last();
    let ports = ports_among(devices);
    if k == devices.len() - 1 {
        let place = ports_among(rest).len() as int;
        assert forall|i: int| 0 <= i < place implies reported_before(
            devices,
            k,
            #[trigger] ports[i],
        ) by {
            let j = lemma_source(rest, i);
            assert(devices[j] == rest[j]);
            assert(ports[i] == ports_among(rest)[i]);
        }
        place
    } else {
        let place = lemma_place(rest, k);
        assert(rest[k] == devices[k]);
        assert forall|i: int| 0 <= i < place implies reported_before(
            devices,
            k,
            #[trigger] ports[i],
        ) by {
            assert(ports[i] == ports_among(rest)[i]);
            assert(reported_before(rest, k, ports_among(rest)[i]));
            let j = choose|j: int|
                0 <= j < k && has_serial_name(#[trigger] rest[j]) && ports_among(rest)[i]
                    == rest[j].port();
            assert(devices[j] == rest[j]);
        }
        place
    }
}

/// Each port comes from a device.
proof fn lemma_source(devices: Seq<DeviceReport>, i: int) -> (source: int)
    requires
        0 <= i < ports_among(devices).len(),
    ensures
        0 <= source < devices.len(),
        has_serial_name(devices[source]),
        ports_among(devices)[i] == devices[source].port(),
    decreases devices.len(),
{
    let rest = devices.drop_last();
    if i < ports_among(rest).len() {
        let source = lemma_source(rest, i);
        assert(devices[source] == rest[source]);
        source
    } else {
        devices.len() - 1
    }
}

/// Every device with a serial name is discovered, but for later reports of an identity that was
/// reported before. Its port shows what the device reports: its identity, its name, the friendly
/// name and the manufacturer as they are unless they are blank, and the identifiers that the first
/// naming hardware ID gives.
pub proof fn law_discovered_ports_show_their_devices(
    devices: Seq<DeviceReport>,
    ports: Seq<PortModel>,
    k: int,
)
    requires
        discovered(ports_among(devices), ports),
        first_with_identity(devices, k),
    ensures
        exists|i: int| 0 <= i < ports.len() && shows(#[trigger] ports[i], devices[k]),
{
    let found = ports_among(devices);
    let place = lemma_place(devices, k);
    lemma_shows(devices[k]);
    assert forall|j: int| 0 <= j < place implies (#[trigger] found[j]).stable_id
        != found[place].stable_id by {
        assert(reported_before(devices, k, found[j]));
        let source = choose|source: int|
            0 <= source < k && has_serial_name(#[trigger] devices[source]) && found[j]
                == devices[source].port();
        lemma_shows(devices[source]);
    }
    assert(is_first_report(found, place));
    reveal(reported_first);
    assert(reported_first(found, found[place]));
    assert(ports.contains(found[place]));
    let i = choose|i: int| 0 <= i < ports.len() && ports[i] == found[place];
    assert(shows(ports[i], devices[k]));
}

/// Every discovered port shows a reported device with a serial name, the first with its identity,
/// and each identity is shown once.
pub proof fn law_only_reported_devices_are_discovered(
    devices: Seq<DeviceReport>,
    ports: Seq<PortModel>,
    i: int,
    j: int,
)
    requires
        discovered(ports_among(devices), ports),
        0 <= i < ports.len(),
        i < j < ports.len(),
    ensures
        exists|k: int|
            #[trigger] first_with_identity(devices, k) && shows(ports[i], devices[k]),
        exists|k: int|
            #[trigger] first_with_identity(devices, k) && shows(ports[j], devices[k]),
        ports[i].stable_id != ports[j].stable_id,
{
    let k = lemma_origin(devices, ports, i);
    let l = lemma_origin(devices, ports, j);
    assert(text_before(ports[i].stable_id, ports[j].stable_id));
    crate::serial::discovery::law_text_order_is_strict(ports[i].stable_id, ports[j].stable_id);
}

proof fn lemma_origin(devices: Seq<DeviceReport>, ports: Seq<PortModel>, i: int) -> (k: int)
    requires
        discovered(ports_among(devices), ports),
        0 <= i < ports.len(),
    ensures
        first_with_identity(devices, k),
        shows(ports[i], devices[k]),
{
    let found = ports_among(devices);
    reveal(reported_first);
    assert(reported_first(found, ports[i]));
    let place = choose|place: int| #[trigger]
        is_first_report(found, place) && found[place] == ports[i];
    let k = lemma_first_source(devices, place);
    lemma_shows(devices[k]);
    k
}

/// The device of a first report is the first with its identity.
proof fn lemma_first_source(devices: Seq<DeviceReport>, place: int) -> (k: int)
    requires
        is_first_report(ports_among(devices), place),
    ensures
        first_with_identity(devices, k),
        ports_among(devices)[place] == devices[k].port(),
    decreases devices.len(),
{
    let rest = devices.drop_last();
    let found = ports_among(devices);
    if place < ports_among(rest).len() {
        assert forall|j: int| 0 <= j < place implies (#[trigger] ports_among(rest)[j]).stable_id
            != ports_among(rest)[place].stable_id by {
            assert(ports_among(rest)[j] == found[j]);
        }
        let k = lemma_first_source(rest, place);
        assert(devices[k] == rest[k]);
        assert forall|j: int| 0 <= j < k && has_serial_name(#[trigger] devices[j]) implies
            devices[j].stable_id@ != devices[k].stable_id@ by {
            assert(devices[j] == rest[j]);
        }
        k
    } else {
        let k = devices.len() - 1;
        assert forall|j: int| 0 <= j < k && has_serial_name(#[trigger] devices[j]) implies
            devices[j].stable_id@ != devices[k].stable_id@ by {
            assert(devices[j] == rest[j]);
            let earlier = lemma_place(rest, j);
            assert(found[earlier] == ports_among(rest)[earlier]);
            lemma_shows(devices[j]);
            lemma_shows(devices[k]);
        }
        k
    }
}

/// The order of texts is decided where they first differ, by the smaller code point; a text comes
/// before every longer one that it begins.
pub proof fn law_first_difference_orders_texts(left: Seq<char>, right: Seq<char>, k: int)
    requires
        0 <= k <= left.len(),
        k <= right.len(),
        forall|j: int| 0 <= j < k ==> #[trigger] left[j] == right[j],
    ensures
        k < left.len() && k < right.len() && left[k] != right[k] ==> (text_before(left, right)
            <==> (left[k] as int) < right[k] as int),
        k == left.len() ==> (text_before(left, right) <==> left.len() < right.len()),
    decreases k,
{
    if k > 0 {
        assert(left[0] == right[0]);
        assert forall|j: int| 0 <= j < k - 1 implies #[trigger] left.skip(1)[j] == right.skip(
            1,
        )[j] by {
            assert(left[j + 1] == right[j + 1]);
        }
        law_first_difference_orders_texts(left.skip(1), right.skip(1), k - 1);
    }
}

/// A transfer asks for as many bytes as its buffer has, and for no more than one call can name.
pub proof fn law_transfer_asks_for_its_whole_buffer(
    direction: TransferDirection,
    length: usize,
    wait: Option<u128>,
)
    ensures
        length == 0 ==> next_stage(
            direction,
            length,
            StageModel::Ready,
            EventModel::Looked(None, false, wait),
        ) is Ended,
        0 < length <= 0xFFFF_FFFF ==> (next_stage(
            direction,
            length,
            StageModel::Ready,
            EventModel::Looked(None, false, wait),
        ) matches StageModel::Starting(requested) && requested == length),
        length > 0xFFFF_FFFF ==> next_stage(
            direction,
            length,
            StageModel::Ready,
            EventModel::Looked(None, false, wait),
        ) == StageModel::Starting(0xFFFF_FFFF),
{
}

/// A call that is pending is waited for, any other refusal ends the transfer; a call that completed
/// is never waited for.
pub proof fn law_only_a_pending_call_is_waited_for(
    direction: TransferDirection,
    length: usize,
    requested: u32,
    code: u32,
)
    ensures
        next_stage(
            direction,
            length,
            StageModel::Starting(requested),
            EventModel::NotStarted(code, None),
        ) == StageModel::Pending <==> code == 997,
        code != 997 ==> (next_stage(
            direction,
            length,
            StageModel::Starting(requested),
            EventModel::NotStarted(code, None),
        ) matches StageModel::Ended(Err(error)) && error.os_code == Some(code)),
        next_stage(direction, length, StageModel::Starting(requested), EventModel::Started)
            == StageModel::Completed,
{
}

/// A pending call waits no longer than its clock allows, to the millisecond, and without a limit
/// where its clock sets none.
pub proof fn law_pending_call_waits_for_its_time(
    direction: TransferDirection,
    length: usize,
    nanos: u128,
)
    ensures
        next_stage(direction, length, StageModel::Pending, EventModel::Looked(None, false, None))
            == StageModel::Waiting(0xFFFF_FFFF),
        next_stage(
            direction,
            length,
            StageModel::Pending,
            EventModel::Looked(None, false, Some(nanos)),
        ) matches StageModel::Waiting(millis) && millis != 0xFFFF_FFFF && (nanos <= 0xFFFF_FFFE
            * 1_000_000 ==> nanos <= millis * 1_000_000 < nanos + 1_000_000),
{
}

/// What a wait for completion, interruption and close comes to: the first finishes the transfer,
/// the second and a time that is up have it look again, and everything else cancels it.
pub proof fn law_waits_are_told_apart(
    direction: TransferDirection,
    length: usize,
    millis: u32,
    status: u32,
    code: u32,
)
    ensures
        ({
            let next = next_stage(
                direction,
                length,
                StageModel::Waiting(millis),
                EventModel::Waited(status, code),
            );
            &&& next == StageModel::Finishing <==> status == 0
            &&& next == StageModel::Pending <==> status == 1 || status == 258
            &&& next is Cancelling <==> status != 0 && status != 1 && status != 258
            &&& next matches StageModel::Cancelling(error) ==> {
                &&& error.kind == SerialErrorKind::Disconnected && error.os_code is None <==> status
                    == 2
                &&& error.os_code == Some(code) <==> status == 0xFFFF_FFFF
                &&& status != 2 && status != 0xFFFF_FFFF ==> error.kind == SerialErrorKind::Io
            }
        }),
{
}

/// The error that ends a cancelled call is the one that cancelled it where the call was aborted;
/// otherwise a failed cancellation shows, and behind it the failure of the call. A cancellation
/// that finds nothing to cancel is no failure.
pub proof fn law_cancelled_call_shows_its_cause(
    direction: TransferDirection,
    length: usize,
    cause: SerialErrorModel,
    cancel: Option<u32>,
    code: u32,
    interruption: Option<SerialErrorModel>,
    closed: bool,
)
    ensures
        ({
            let settling = next_stage(
                direction,
                length,
                StageModel::Cancelling(cause),
                EventModel::CancelRequested(cancel),
            );
            let end = next_stage(
                direction,
                length,
                settling,
                EventModel::Taken(Err(code), interruption, closed),
            );
            end matches StageModel::Ended(Err(error)) && {
                &&& code == 995 ==> error == cause
                &&& code != 995 && (cancel is None || cancel == Some(1168u32)) ==> error.os_code
                    == Some(code)
                &&& code != 995 && cancel is Some && cancel != Some(1168u32) ==> error.os_code
                    == cancel
            }
        }),
{
}

/// A completed call that failed shows its failure; one that was aborted shows the interruption, or
/// the close, behind it.
pub proof fn law_completed_call_shows_its_failure(
    direction: TransferDirection,
    length: usize,
    code: u32,
    interruption: Option<SerialErrorModel>,
    closed: bool,
)
    ensures
        ({
            let end = next_stage(
                direction,
                length,
                StageModel::Finishing,
                EventModel::Taken(Err(code), interruption, closed),
            );
            end matches StageModel::Ended(Err(error)) && {
                &&& code != 995 ==> error.os_code == Some(code)
                &&& code == 995 && interruption is Some ==> error == interruption->0
                &&& code == 995 && interruption is None && closed ==> error.kind
                    == SerialErrorKind::Disconnected && error.os_code is None
                &&& code == 995 && interruption is None && !closed ==> error.os_code == Some(code)
            }
        }),
        next_stage(
            direction,
            length,
            StageModel::Completed,
            EventModel::Taken(Err(code), interruption, closed),
        ) matches StageModel::Ended(Err(error)) && error.os_code == Some(code),
{
}

/// A completion without a byte is a failure of its own, wherever it comes.
pub proof fn law_no_progress_is_a_failure(
    direction: TransferDirection,
    length: usize,
    stage: StageModel,
    interruption: Option<SerialErrorModel>,
    closed: bool,
)
    requires
        stage == StageModel::Completed || stage == StageModel::Finishing || stage is Settling,
    ensures
        next_stage(
            direction,
            length,
            stage,
            EventModel::Taken(Ok(0), interruption, closed),
        ) matches StageModel::Ended(Err(error)) && error.kind == SerialErrorKind::ZeroProgress,
{
}

/// A device with a serial name but without an identity that shows anything cannot be told apart
/// from others, and makes discovery fail; no other device does.
pub proof fn law_unidentified_serial_devices_are_refused(device: DeviceReport)
    ensures
        device.is_nameless() <==> has_serial_name(device) && forall|k: int|
            0 <= k < device.stable_id@.len() ==> is_white_space(#[trigger] device.stable_id@[k]),
{
    if has_serial_name(device) {
        let name = device.port_name->0@;
        assert(name[0] == 'C' || name[0] == 'c');
        assert(!is_white_space(name[0]));
    }
}

/// A port is shown by its name, and its identity in brackets behind it.
pub proof fn law_ports_are_shown_by_name_and_identity(port: PortModel)
    ensures
        port.text() == port.port_name + " ("@ + port.stable_id + ")"@,
{
}

/// Discovery walks the devices one index at a time and stops behind the last one; any other refusal
/// is a failure that keeps its code.
pub proof fn law_discovery_walks_device_by_device(index: u32, code: u32)
    ensures
        index < 0xFFFF_FFFF ==> (next_device_of(index, None) matches Ok(Some(next)) && next == index
            + 1),
        index == 0xFFFF_FFFF ==> next_device_of(index, None) is Err,
        next_device_of(index, Some(code)) == Ok::<Option<u32>, SerialErrorModel>(None) <==> code
            == 259,
        code != 259 ==> (next_device_of(index, Some(code)) matches Err(error) && error.os_code
            == Some(code)),
{
}

/// A port name is read where it is there as text of at most 65536 bytes. Where there is none, or
/// nothing of that kind, the device has no port name; a longer one and any other refusal fail.
pub proof fn law_port_names_are_bounded_text(status: u32, value_type: u32, size: u32)
    ensures
        port_name_size_of(status, value_type, size) == Ok::<SizeAnswer, SerialErrorModel>(
            SizeAnswer::Bytes(size),
        ) <==> status == 0 && value_type == 1 && 0 < size <= 65536,
        port_name_size_of(status, value_type, size) == Ok::<SizeAnswer, SerialErrorModel>(
            SizeAnswer::Absent,
        ) <==> status == 2 || status == 0 && (value_type != 1 || size == 0),
        status != 0 && status != 2 ==> (port_name_size_of(status, value_type, size) matches Err(
            error,
        ) && error.os_code == Some(status)),
        status == 0 && value_type == 1 && size > 65536 ==> (port_name_size_of(
            status,
            value_type,
            size,
        ) matches Err(error) && error.kind == SerialErrorKind::Io && error.os_code is None),
{
}

/// A property is read where it is text, or a list of texts, of at most 65536 bytes; whatever is
/// missing or of another kind is left out. A refusal other than that the buffer is too small fails.
pub proof fn law_properties_are_bounded_text(failure: Option<u32>, value_type: u32, size: u32)
    ensures
        ({
            let answer = property_size_of(failure, value_type, size);
            let missing = failure == Some(13u32) || failure == Some(2u32);
            let told = failure is None || failure == Some(122u32) && size > 0;
            let textual = value_type == 1 || value_type == 7;
            &&& answer == Ok::<SizeAnswer, SerialErrorModel>(SizeAnswer::Bytes(size)) <==> told
                && textual && size <= 65536
            &&& answer == Ok::<SizeAnswer, SerialErrorModel>(SizeAnswer::Absent) <==> missing
                || told && !textual
            &&& !missing && !told ==> (answer matches Err(error) && error.os_code == failure)
            &&& told && textual && size > 65536 ==> (answer matches Err(error) && error.kind
                == SerialErrorKind::Io && error.os_code is None)
        }),
{
}

/// An identity is read where it has at most 4096 characters. A refusal other than that the buffer
/// is too small fails.
pub proof fn law_identities_are_bounded(failure: Option<u32>, size: u32)
    ensures
        ({
            let answer = instance_id_size_of(failure, size);
            let told = failure is None || failure == Some(122u32) && size > 0;
            &&& answer == Ok::<u32, SerialErrorModel>(size) <==> told && size <= 4096
            &&& answer is Ok ==> answer->Ok_0 == size
            &&& !told ==> (answer matches Err(error) && error.os_code == failure)
            &&& told && size > 4096 ==> (answer matches Err(error) && error.kind
                == SerialErrorKind::Io && error.os_code is None)
        }),
{
}

/// Input is purged on an open port whose request goes on; an interruption is told before a close.
pub proof fn law_purge_needs_an_open_port(interruption: SerialErrorModel, closed: bool)
    ensures
        discard_begun(None, false) is Ok,
        discard_begun(None, true) matches Err(error) && error.kind == SerialErrorKind::Disconnected,
        discard_begun(Some(interruption), closed) == Err::<(), SerialErrorModel>(interruption),
{
}

/// A port is opened at its device path exactly where the request goes on, the baud rate is not
/// nought and the name is a serial one; an interruption is told before anything else.
pub proof fn law_ports_open_at_their_path(
    name: Seq<char>,
    baud_rate: u32,
    interruption: SerialErrorModel,
)
    ensures
        path_of(name, baud_rate, None) is Ok <==> baud_rate != 0 && is_openable(name),
        is_com(name) && name.len() <= 64 && baud_rate != 0 ==> path_of(name, baud_rate, None) == Ok::<
            Seq<u16>,
            SerialErrorModel,
        >(utf16(seq!['\\', '\\', '.', '\\'] + name).push(0)),
        path_of(name, baud_rate, None) matches Err(error) ==> error.kind
            == SerialErrorKind::InvalidPort,
        path_of(name, baud_rate, Some(interruption)) == Err::<Seq<u16>, SerialErrorModel>(
            interruption,
        ),
{
    if is_com(name) {
        law_a_path_prefix_makes_no_difference(name);
    }
}

/// A transfer that fails names its own system call.
pub proof fn law_transfers_name_their_call(length: usize, requested: u32, code: u32)
    requires
        code != 997,
    ensures
        next_stage(
            TransferDirection::Read,
            length,
            StageModel::Starting(requested),
            EventModel::NotStarted(code, None),
        ) matches StageModel::Ended(Err(error)) && error.message == "ReadFile(serial port)"@
            + " failed"@,
        next_stage(
            TransferDirection::Write,
            length,
            StageModel::Starting(requested),
            EventModel::NotStarted(code, None),
        ) matches StageModel::Ended(Err(error)) && error.message == "WriteFile(serial port)"@
            + " failed"@,
{
}

} // verus!
