//! What Windows reports and accepts at the serial boundary: status codes, port names, hardware
//! identifiers, and the decisions around one overlapped transfer.

use crate::serial::discovery::{
    collect_ports, discovered, label, port_models, text_view, PortModel, SerialPortDescriptor,
    UsbIdentifiers,
};
use crate::serial::error::{
    error_view, plain_error, SerialError, SerialErrorKind, SerialErrorModel,
};
use crate::serial::io::reply_view;
use crate::serial::text::{
    chars_of, decode_first_wide_string, decode_wide, hex_digit, hex_digit_value, is_blank,
    is_digit, le_units, text_of, texts_view, to_upper, upper, utf16, wide_nul, wide_text,
    wide_texts,
};
use crate::wait::{duration_as_nanos, nanos_of};
use std::time::Duration;
use vstd::prelude::*;

pub mod laws;
pub mod transfer;

verus! {

pub const ERROR_SUCCESS: u32 = 0;

pub const ERROR_FILE_NOT_FOUND: u32 = 2;

pub const ERROR_PATH_NOT_FOUND: u32 = 3;

pub const ERROR_ACCESS_DENIED: u32 = 5;

pub const ERROR_INVALID_HANDLE: u32 = 6;

pub const ERROR_INVALID_DATA: u32 = 13;

pub const ERROR_GEN_FAILURE: u32 = 31;

pub const ERROR_SHARING_VIOLATION: u32 = 32;

pub const ERROR_SEM_TIMEOUT: u32 = 121;

pub const ERROR_INSUFFICIENT_BUFFER: u32 = 122;

pub const ERROR_NO_MORE_ITEMS: u32 = 259;

pub const ERROR_OPERATION_ABORTED: u32 = 995;

pub const ERROR_IO_PENDING: u32 = 997;

pub const ERROR_DEVICE_NOT_CONNECTED: u32 = 1167;

pub const ERROR_NOT_FOUND: u32 = 1168;

pub const WAIT_OBJECT_0: u32 = 0;

pub const WAIT_TIMEOUT: u32 = 258;

pub const WAIT_FAILED: u32 = 0xFFFF_FFFF;

/// A wait without a limit.
pub const INFINITE: u32 = 0xFFFF_FFFF;

pub const REG_SZ: u32 = 1;

pub const REG_MULTI_SZ: u32 = 7;

/// The longest port name that is opened.
pub const MAX_COM_PORT_NAME_CHARS: usize = 64;

/// The longest device-instance identity that is read.
pub const MAX_INSTANCE_ID_CHARS: u32 = 4096;

/// The longest device property that is read.
pub const MAX_PROPERTY_BYTES: u32 = 65536;

/// The category of a Windows status code.
pub open spec fn kind_of_code(code: u32) -> SerialErrorKind {
    if code == ERROR_ACCESS_DENIED {
        SerialErrorKind::AccessDenied
    } else if code == ERROR_SHARING_VIOLATION {
        SerialErrorKind::PortBusy
    } else if code == ERROR_FILE_NOT_FOUND || code == ERROR_PATH_NOT_FOUND {
        SerialErrorKind::NotFound
    } else if code == ERROR_DEVICE_NOT_CONNECTED || code == ERROR_GEN_FAILURE || code
        == ERROR_INVALID_HANDLE || code == ERROR_OPERATION_ABORTED {
        SerialErrorKind::Disconnected
    } else if code == ERROR_SEM_TIMEOUT {
        SerialErrorKind::DeadlineExceeded
    } else {
        SerialErrorKind::Io
    }
}

/// The error of a call that failed with a Windows status code.
pub open spec fn code_error(operation: Seq<char>, code: u32) -> SerialErrorModel {
    SerialErrorModel {
        os_code: Some(code),
        ..plain_error(kind_of_code(code), operation + " failed"@)
    }
}

/// Returns the error of a call that failed with a Windows status code.
pub fn from_code(operation: &str, code: u32) -> (error: SerialError)
    ensures
        error@ == code_error(operation@, code),
{
    let kind = if code == ERROR_ACCESS_DENIED {
        SerialErrorKind::AccessDenied
    } else if code == ERROR_SHARING_VIOLATION {
        SerialErrorKind::PortBusy
    } else if code == ERROR_FILE_NOT_FOUND || code == ERROR_PATH_NOT_FOUND {
        SerialErrorKind::NotFound
    } else if code == ERROR_DEVICE_NOT_CONNECTED || code == ERROR_GEN_FAILURE || code
        == ERROR_INVALID_HANDLE || code == ERROR_OPERATION_ABORTED {
        SerialErrorKind::Disconnected
    } else if code == ERROR_SEM_TIMEOUT {
        SerialErrorKind::DeadlineExceeded
    } else {
        SerialErrorKind::Io
    };
    let mut message: String = operation.to_owned();
    message.append(" failed");
    SerialError::with_os_code(kind, message.as_str(), code)
}

// ---- port names ----

/// Whether a text is `COM`, in any case, followed by decimal digits.
pub open spec fn is_com(name: Seq<char>) -> bool {
    &&& name.len() > 3
    &&& upper(name[0]) == 'C'
    &&& upper(name[1]) == 'O'
    &&& upper(name[2]) == 'M'
    &&& forall|k: int| 3 <= k < name.len() ==> is_digit(#[trigger] name[k])
}

fn com_name(chars: &Vec<char>, start: usize) -> (com: bool)
    requires
        start <= chars@.len(),
    ensures
        com == is_com(chars@.skip(start as int)),
{
    let ghost name = chars@.skip(start as int);
    if chars.len() - start <= 3 {
        return false;
    }
    assert(name[0] == chars@[start as int]);
    assert(name[1] == chars@[start + 1]);
    assert(name[2] == chars@[start + 2]);
    if to_upper(chars[start]) != 'C' || to_upper(chars[start + 1]) != 'O' || to_upper(
        chars[start + 2],
    ) != 'M' {
        return false;
    }
    let mut k: usize = start + 3;
    while k < chars.len()
        invariant
            start + 3 <= k <= chars.len(),
            name == chars@.skip(start as int),
            forall|j: int| 3 <= j < k - start ==> is_digit(#[trigger] name[j]),
        decreases chars.len() - k,
    {
        let c: char = chars[k];
        assert(name[k - start] == c);
        if !('0' <= c && c <= '9') {
            return false;
        }
        k += 1;
    }
    true
}

/// Returns whether a system port value is an openable serial name.
pub fn is_com_port_name(value: &str) -> (com: bool)
    ensures
        com == is_com(value@),
{
    let chars = chars_of(value);
    assert(chars@.skip(0) =~= value@);
    com_name(&chars, 0)
}

/// The prefix of a device path.
pub open spec fn device_prefix() -> Seq<char> {
    seq!['\\', '\\', '.', '\\']
}

/// A port name without the prefix of a device path.
pub open spec fn bare_name(name: Seq<char>) -> Seq<char> {
    if name.len() >= 4 && name.take(4) == device_prefix() {
        name.skip(4)
    } else {
        name
    }
}

/// Whether a port name is opened.
pub open spec fn is_openable(name: Seq<char>) -> bool {
    is_com(bare_name(name)) && bare_name(name).len() <= MAX_COM_PORT_NAME_CHARS
}

/// Returns the canonical device path of a serial port, in UTF-16 with a terminating zero. No other
/// device has one.
pub fn port_path(port_name: &str) -> (path: Result<Vec<u16>, SerialError>)
    ensures
        path is Ok <==> is_openable(port_name@),
        path matches Ok(path) ==> path@ == utf16(device_prefix() + bare_name(port_name@)).push(0),
        path matches Err(error) ==> error@ == plain_error(
            SerialErrorKind::InvalidPort,
            "Windows serial port name must be COM followed by decimal digits"@,
        ),
{
    let chars = chars_of(port_name);
    let prefixed: bool = chars.len() >= 4 && chars[0] == '\\' && chars[1] == '\\' && chars[2] == '.'
        && chars[3] == '\\';
    let start: usize = if prefixed {
        4
    } else {
        0
    };
    proof {
        if chars@.len() >= 4 {
            if prefixed {
                assert(chars@.take(4) =~= device_prefix());
            } else if chars@.take(4) == device_prefix() {
                assert(chars@[0] == chars@.take(4)[0]);
                assert(chars@[1] == chars@.take(4)[1]);
                assert(chars@[2] == chars@.take(4)[2]);
                assert(chars@[3] == chars@.take(4)[3]);
            }
        }
        assert(chars@.skip(0) =~= chars@);
        assert(chars@.skip(start as int) == bare_name(port_name@));
    }
    if chars.len() - start > MAX_COM_PORT_NAME_CHARS || !com_name(&chars, start) {
        return Err(
            SerialError::new(
                SerialErrorKind::InvalidPort,
                "Windows serial port name must be COM followed by decimal digits",
            ),
        );
    }
    let mut full: Vec<char> = Vec::new();
    full.push('\\');
    full.push('\\');
    full.push('.');
    full.push('\\');
    let mut k: usize = start;
    assert(full@ =~= device_prefix() + chars@.subrange(start as int, k as int));
    while k < chars.len()
        invariant
            start <= k <= chars.len(),
            full@ == device_prefix() + chars@.subrange(start as int, k as int),
        decreases chars.len() - k,
    {
        full.push(chars[k]);
        assert(full@ =~= device_prefix() + chars@.subrange(start as int, k + 1));
        k += 1;
    }
    assert(chars@.subrange(start as int, k as int) =~= chars@.skip(start as int));
    let text = text_of(&full);
    Ok(wide_nul(text.as_str()))
}

// ---- hardware identifiers ----

/// Whether a marker stands at a place.
pub open spec fn marker_at(value: Seq<char>, marker: Seq<char>, k: int) -> bool {
    0 <= k && k + marker.len() <= value.len() && value.subrange(k, k + marker.len()) == marker
}

/// The value of four hexadecimal digits that no fifth follows.
pub open spec fn four_digits(value: Seq<char>, start: int) -> Option<int> {
    if start + 4 > value.len() || (start + 4 < value.len() && hex_digit(value[start + 4]) is Some)
        || hex_digit(value[start]) is None || hex_digit(value[start + 1]) is None || hex_digit(
        value[start + 2],
    ) is None || hex_digit(value[start + 3]) is None {
        None
    } else {
        Some(
            hex_digit(value[start])->0 * 4096 + hex_digit(value[start + 1])->0 * 256 + hex_digit(
                value[start + 2],
            )->0 * 16 + hex_digit(value[start + 3])->0,
        )
    }
}

/// The component behind the first marker at or after `k`.
pub open spec fn component_from(value: Seq<char>, marker: Seq<char>, k: int) -> Option<int>
    decreases value.len() - k,
{
    if k < 0 || k >= value.len() || k + marker.len() > value.len() {
        None
    } else if marker_at(value, marker, k) {
        four_digits(value, k + marker.len())
    } else {
        component_from(value, marker, k + 1)
    }
}

/// The identifiers that a hardware ID names; none unless it names both.
pub open spec fn usb_of(value: Seq<char>) -> Option<UsbIdentifiers> {
    let text = value.map_values(|c: char| upper(c));
    match (component_from(text, seq!['V', 'I', 'D', '_'], 0), component_from(
        text,
        seq!['P', 'I', 'D', '_'],
        0,
    )) {
        (Some(vid), Some(pid)) => Some(UsbIdentifiers { vid: vid as u16, pid: pid as u16 }),
        _ => None,
    }
}

fn parse_four_digits(value: &Vec<char>, start: usize) -> (number: Option<u16>)
    requires
        start <= value@.len(),
    ensures
        number is Some <==> four_digits(value@, start as int) is Some,
        number matches Some(number) ==> number == four_digits(value@, start as int)->0,
{
    if value.len() - start < 4 {
        return None;
    }
    if value.len() - start > 4 && hex_digit_value(value[start + 4]).is_some() {
        return None;
    }
    let a = match hex_digit_value(value[start]) {
        Some(digit) => digit,
        None => {
            return None;
        },
    };
    let b = match hex_digit_value(value[start + 1]) {
        Some(digit) => digit,
        None => {
            return None;
        },
    };
    let c = match hex_digit_value(value[start + 2]) {
        Some(digit) => digit,
        None => {
            return None;
        },
    };
    let d = match hex_digit_value(value[start + 3]) {
        Some(digit) => digit,
        None => {
            return None;
        },
    };
    Some(a * 4096 + b * 256 + c * 16 + d)
}

fn parse_hex_component(value: &Vec<char>, first: char) -> (number: Option<u16>)
    ensures
        ({
            let found = component_from(value@, seq![first, 'I', 'D', '_'], 0);
            &&& number is Some <==> found is Some
            &&& number matches Some(number) ==> number == found->0
        }),
{
    let ghost marker = seq![first, 'I', 'D', '_'];
    let mut k: usize = 0;
    while k < value.len() && value.len() - k >= 4
        invariant
            k <= value.len(),
            marker == seq![first, 'I', 'D', '_'],
            component_from(value@, marker, 0) == component_from(value@, marker, k as int),
        decreases value.len() - k,
    {
        let here: bool = value[k] == first && value[k + 1] == 'I' && value[k + 2] == 'D'
            && value[k + 3] == '_';
        proof {
            let part = value@.subrange(k as int, k + 4);
            if here {
                assert(part =~= marker);
            } else if part == marker {
                assert(part[0] == value@[k as int]);
                assert(part[1] == value@[k + 1]);
                assert(part[2] == value@[k + 2]);
                assert(part[3] == value@[k + 3]);
            }
            assert(here == marker_at(value@, marker, k as int));
        }
        if here {
            return parse_four_digits(value, k + 4);
        }
        k += 1;
    }
    None
}

/// Returns the identifiers that a hardware ID names explicitly.
pub fn parse_usb_identifiers(value: &str) -> (usb: Option<UsbIdentifiers>)
    ensures
        usb == usb_of(value@),
{
    let chars = chars_of(value);
    let ghost text = value@.map_values(|c: char| upper(c));
    let mut uppercase: Vec<char> = Vec::new();
    let mut k: usize = 0;
    while k < chars.len()
        invariant
            k <= chars.len(),
            chars@ == value@,
            text == value@.map_values(|c: char| upper(c)),
            uppercase@ == text.take(k as int),
        decreases chars.len() - k,
    {
        uppercase.push(to_upper(chars[k]));
        assert(uppercase@ =~= text.take(k + 1));
        k += 1;
    }
    assert(text.take(k as int) =~= text);
    let vid = match parse_hex_component(&uppercase, 'V') {
        Some(vid) => vid,
        None => {
            return None;
        },
    };
    let pid = match parse_hex_component(&uppercase, 'P') {
        Some(pid) => pid,
        None => {
            return None;
        },
    };
    Some(UsbIdentifiers { vid, pid })
}

/// The identifiers of the first hardware ID that names any.
pub open spec fn first_usb(ids: Seq<Seq<char>>) -> Option<UsbIdentifiers>
    decreases ids.len(),
{
    if ids.len() == 0 {
        None
    } else if usb_of(ids[0]) is Some {
        usb_of(ids[0])
    } else {
        first_usb(ids.skip(1))
    }
}

fn find_usb_identifiers(ids: &Vec<String>) -> (usb: Option<UsbIdentifiers>)
    ensures
        usb == first_usb(texts_view(ids@)),
{
    let ghost all = texts_view(ids@);
    let mut k: usize = 0;
    assert(all.skip(0) =~= all);
    while k < ids.len()
        invariant
            k <= ids.len(),
            all == texts_view(ids@),
            first_usb(all) == first_usb(all.skip(k as int)),
        decreases ids.len() - k,
    {
        assert(all.skip(k as int)[0] == ids@[k as int]@);
        let usb = parse_usb_identifiers(ids[k].as_str());
        if usb.is_some() {
            return usb;
        }
        assert(all.skip(k as int).skip(1) =~= all.skip(k + 1));
        k += 1;
    }
    None
}

/// The port that one device reports, its labels and identifiers where it has any.
pub open spec fn described(
    stable_id: Seq<char>,
    port_name: Seq<char>,
    friendly_name: Option<Seq<char>>,
    manufacturer: Option<Seq<char>>,
    hardware_ids: Seq<Seq<char>>,
) -> PortModel {
    PortModel {
        friendly_name: match friendly_name {
            Some(name) => label(name),
            None => None,
        },
        manufacturer: match manufacturer {
            Some(name) => label(name),
            None => None,
        },
        usb: first_usb(hardware_ids),
        ..PortModel::bare(stable_id, port_name)
    }
}

/// Returns the port that one device reports.
pub fn describe_port(
    stable_id: &str,
    port_name: &str,
    friendly_name: &Option<String>,
    manufacturer: &Option<String>,
    hardware_ids: &Vec<String>,
) -> (port: Result<SerialPortDescriptor, SerialError>)
    ensures
        port is Ok <==> !is_blank(stable_id@) && !is_blank(port_name@),
        port matches Ok(port) ==> port@ == described(
            stable_id@,
            port_name@,
            text_view(*friendly_name),
            text_view(*manufacturer),
            texts_view(hardware_ids@),
        ),
        port matches Err(error) ==> error@ == plain_error(
            SerialErrorKind::InvalidPort,
            "serial stable ID and port name must be non-empty"@,
        ),
{
    let mut port = match SerialPortDescriptor::new(stable_id, port_name) {
        Ok(port) => port,
        Err(error) => {
            return Err(error);
        },
    };
    if let Some(name) = friendly_name {
        port = port.with_friendly_name(name.as_str());
    }
    if let Some(name) = manufacturer {
        port = port.with_manufacturer(name.as_str());
    }
    if let Some(usb) = find_usb_identifiers(hardware_ids) {
        port = port.with_usb_identifiers(usb);
    }
    Ok(port)
}

/// What the system tells of one present device. Of a device without a serial name only the name
/// is read.
pub struct DeviceReport {
    pub port_name: Option<String>,
    pub stable_id: String,
    pub friendly_name: Option<String>,
    pub manufacturer: Option<String>,
    pub hardware_ids: Vec<String>,
}

impl DeviceReport {
    /// Whether the device is a serial port.
    pub open spec fn is_serial(&self) -> bool {
        self.port_name matches Some(name) && is_com(name@)
    }

    /// Whether the device cannot be identified.
    pub open spec fn is_nameless(&self) -> bool {
        self.is_serial() && (is_blank(self.stable_id@) || is_blank(self.port_name->0@))
    }

    /// The port that the device reports.
    pub open spec fn port(&self) -> PortModel {
        described(
            self.stable_id@,
            self.port_name->0@,
            text_view(self.friendly_name),
            text_view(self.manufacturer),
            texts_view(self.hardware_ids@),
        )
    }
}

/// The ports among devices, in the order in which they are reported.
pub open spec fn ports_among(devices: Seq<DeviceReport>) -> Seq<PortModel>
    decreases devices.len(),
{
    if devices.len() == 0 {
        seq![]
    } else if devices.last().is_serial() {
        ports_among(devices.drop_last()).push(devices.last().port())
    } else {
        ports_among(devices.drop_last())
    }
}

/// Returns the serial ports among the present devices, ordered by stable device-instance ID, of
/// each ID the first report.
pub fn describe_ports(devices: &Vec<DeviceReport>) -> (ports: Result<
    Vec<SerialPortDescriptor>,
    SerialError,
>)
    ensures
        ports is Err <==> exists|k: int|
            0 <= k < devices@.len() && (#[trigger] devices@[k]).is_nameless(),
        ports matches Ok(ports) ==> discovered(ports_among(devices@), port_models(ports@)),
        ports matches Err(error) ==> error@ == plain_error(
            SerialErrorKind::InvalidPort,
            "serial stable ID and port name must be non-empty"@,
        ),
{
    let mut found: Vec<SerialPortDescriptor> = Vec::new();
    let mut k: usize = 0;
    assert(port_models(found@) =~= ports_among(devices@.take(0)));
    while k < devices.len()
        invariant
            k <= devices.len(),
            port_models(found@) == ports_among(devices@.take(k as int)),
            forall|j: int| 0 <= j < k ==> !(#[trigger] devices@[j]).is_nameless(),
        decreases devices.len() - k,
    {
        let device = &devices[k];
        proof {
            assert(devices@.take(k + 1).drop_last() =~= devices@.take(k as int));
            assert(devices@.take(k + 1).last() == devices@[k as int]);
        }
        if let Some(name) = &device.port_name {
            if is_com_port_name(name.as_str()) {
                let port = match describe_port(
                    device.stable_id.as_str(),
                    name.as_str(),
                    &device.friendly_name,
                    &device.manufacturer,
                    &device.hardware_ids,
                ) {
                    Ok(port) => port,
                    Err(error) => {
                        assert(devices@[k as int].is_nameless());
                        return Err(error);
                    },
                };
                let ghost before = port_models(found@);
                found.push(port);
                assert(port_models(found@) =~= before.push(port@));
            }
        }
        k += 1;
    }
    assert(devices@.take(k as int) =~= devices@);
    Ok(collect_ports(found))
}

// ---- sizes of system values ----

/// The error of a property that is too long to read.
pub open spec fn oversize_error(property: Seq<char>) -> SerialErrorModel {
    plain_error(
        SerialErrorKind::Io,
        "Windows serial "@ + property + " exceeds the discovery limit"@,
    )
}

/// Refuses a property that is too long to read.
pub fn validate_property_size(size: u32, property: &str) -> (valid: Result<(), SerialError>)
    ensures
        valid is Ok <==> size <= MAX_PROPERTY_BYTES,
        valid matches Err(error) ==> error@ == oversize_error(property@),
{
    if size > MAX_PROPERTY_BYTES {
        let mut message: String = "Windows serial ".to_owned();
        message.append(property);
        message.append(" exceeds the discovery limit");
        Err(SerialError::new(SerialErrorKind::Io, message.as_str()))
    } else {
        Ok(())
    }
}

/// What asking for the size of a system value came to.
#[derive(Clone, Copy, Debug, PartialEq, Eq, Structural)]
pub enum SizeAnswer {
    /// The device has no such value.
    Absent,
    /// The value takes this many bytes.
    Bytes(u32),
}

/// What the size query for a port name comes to.
pub open spec fn port_name_size_of(status: u32, value_type: u32, required_bytes: u32) -> Result<
    SizeAnswer,
    SerialErrorModel,
> {
    if status == ERROR_FILE_NOT_FOUND {
        Ok(SizeAnswer::Absent)
    } else if status != ERROR_SUCCESS {
        Err(code_error("RegQueryValueExW(PortName size)"@, status))
    } else if value_type != REG_SZ || required_bytes == 0 {
        Ok(SizeAnswer::Absent)
    } else if required_bytes <= MAX_PROPERTY_BYTES {
        Ok(SizeAnswer::Bytes(required_bytes))
    } else {
        Err(oversize_error("PortName"@))
    }
}

/// Decides what the size query for a port name came to.
pub fn port_name_size(status: u32, value_type: u32, required_bytes: u32) -> (answer: Result<
    SizeAnswer,
    SerialError,
>)
    ensures
        ({
            let absent = status == ERROR_FILE_NOT_FOUND || (status == ERROR_SUCCESS && (value_type
                != REG_SZ || required_bytes == 0));
            let present = status == ERROR_SUCCESS && value_type == REG_SZ && 0 < required_bytes
                <= MAX_PROPERTY_BYTES;
            &&& answer is Ok <==> absent || present
            &&& absent ==> answer == Ok::<SizeAnswer, SerialError>(SizeAnswer::Absent)
            &&& present ==> answer == Ok::<SizeAnswer, SerialError>(
                SizeAnswer::Bytes(required_bytes),
            )
            &&& answer matches Err(error) ==> error@ == if status != ERROR_SUCCESS {
                code_error("RegQueryValueExW(PortName size)"@, status)
            } else {
                oversize_error("PortName"@)
            }
        }),
        reply_view(answer) == port_name_size_of(status, value_type, required_bytes),
{
    if status == ERROR_FILE_NOT_FOUND {
        return Ok(SizeAnswer::Absent);
    }
    if status != ERROR_SUCCESS {
        return Err(from_code("RegQueryValueExW(PortName size)", status));
    }
    if value_type != REG_SZ || required_bytes == 0 {
        return Ok(SizeAnswer::Absent);
    }
    match validate_property_size(required_bytes, "PortName") {
        Ok(()) => Ok(SizeAnswer::Bytes(required_bytes)),
        Err(error) => Err(error),
    }
}

/// What the size query for a device property comes to.
pub open spec fn property_size_of(
    failure: Option<u32>,
    value_type: u32,
    required_bytes: u32,
) -> Result<SizeAnswer, SerialErrorModel> {
    let missing = failure == Some(ERROR_INVALID_DATA) || failure == Some(ERROR_FILE_NOT_FOUND);
    if missing {
        Ok(SizeAnswer::Absent)
    } else if failure is Some && (failure != Some(ERROR_INSUFFICIENT_BUFFER) || required_bytes
        == 0) {
        Err(code_error("SetupDiGetDeviceRegistryPropertyW(size)"@, failure->0))
    } else if value_type != REG_SZ && value_type != REG_MULTI_SZ {
        Ok(SizeAnswer::Absent)
    } else if required_bytes <= MAX_PROPERTY_BYTES {
        Ok(SizeAnswer::Bytes(required_bytes))
    } else {
        Err(oversize_error("device property"@))
    }
}

/// Decides what the size query for a device property came to; `failure` is the status of a query
/// that did not succeed.
pub fn property_size(failure: Option<u32>, value_type: u32, required_bytes: u32) -> (answer: Result<
    SizeAnswer,
    SerialError,
>)
    ensures
        ({
            let missing = failure == Some(ERROR_INVALID_DATA) || failure == Some(
                ERROR_FILE_NOT_FOUND,
            );
            let broken = failure is Some && !missing && (failure != Some(ERROR_INSUFFICIENT_BUFFER)
                || required_bytes == 0);
            let textual = value_type == REG_SZ || value_type == REG_MULTI_SZ;
            &&& answer is Err <==> broken || (!missing && textual && required_bytes
                > MAX_PROPERTY_BYTES)
            &&& answer matches Ok(found) ==> found == if missing || !textual {
                SizeAnswer::Absent
            } else {
                SizeAnswer::Bytes(required_bytes)
            }
            &&& answer matches Err(error) ==> error@ == if broken {
                code_error("SetupDiGetDeviceRegistryPropertyW(size)"@, failure->0)
            } else {
                oversize_error("device property"@)
            }
        }),
        reply_view(answer) == property_size_of(failure, value_type, required_bytes),
{
    if let Some(code) = failure {
        if code == ERROR_INVALID_DATA || code == ERROR_FILE_NOT_FOUND {
            return Ok(SizeAnswer::Absent);
        }
        if code != ERROR_INSUFFICIENT_BUFFER || required_bytes == 0 {
            return Err(from_code("SetupDiGetDeviceRegistryPropertyW(size)", code));
        }
    }
    if value_type != REG_SZ && value_type != REG_MULTI_SZ {
        return Ok(SizeAnswer::Absent);
    }
    match validate_property_size(required_bytes, "device property") {
        Ok(()) => Ok(SizeAnswer::Bytes(required_bytes)),
        Err(error) => Err(error),
    }
}

/// What the size query for a device-instance identity comes to.
pub open spec fn instance_id_size_of(failure: Option<u32>, required_chars: u32) -> Result<
    u32,
    SerialErrorModel,
> {
    if failure is Some && (failure != Some(ERROR_INSUFFICIENT_BUFFER) || required_chars == 0) {
        Err(code_error("SetupDiGetDeviceInstanceIdW(size)"@, failure->0))
    } else if required_chars <= MAX_INSTANCE_ID_CHARS {
        Ok(required_chars)
    } else {
        Err(
            plain_error(
                SerialErrorKind::Io,
                "Windows serial device instance ID exceeds the discovery limit"@,
            ),
        )
    }
}

/// Decides what the size query for a device-instance identity came to; `failure` is the status of a
/// query that did not succeed.
pub fn instance_id_size(failure: Option<u32>, required_chars: u32) -> (size: Result<
    u32,
    SerialError,
>)
    ensures
        ({
            let broken = failure is Some && (failure != Some(ERROR_INSUFFICIENT_BUFFER)
                || required_chars == 0);
            &&& size is Ok <==> !broken && required_chars <= MAX_INSTANCE_ID_CHARS
            &&& size matches Ok(size) ==> size == required_chars
            &&& size matches Err(error) ==> error@ == if broken {
                code_error("SetupDiGetDeviceInstanceIdW(size)"@, failure->0)
            } else {
                plain_error(
                    SerialErrorKind::Io,
                    "Windows serial device instance ID exceeds the discovery limit"@,
                )
            }
        }),
        reply_view(size) == instance_id_size_of(failure, required_chars),
{
    if let Some(code) = failure {
        if code != ERROR_INSUFFICIENT_BUFFER || required_chars == 0 {
            return Err(from_code("SetupDiGetDeviceInstanceIdW(size)", code));
        }
    }
    if required_chars > MAX_INSTANCE_ID_CHARS {
        return Err(
            SerialError::new(
                SerialErrorKind::Io,
                "Windows serial device instance ID exceeds the discovery limit",
            ),
        );
    }
    Ok(required_chars)
}

/// Returns the device-instance identity that a buffer holds.
pub fn device_instance_id(units: &Vec<u16>) -> (id: Result<String, SerialError>)
    ensures
        id is Ok <==> wide_text(units@) is Some,
        id matches Ok(id) ==> id@ == wide_text(units@)->0,
        id matches Err(error) ==> error@ == plain_error(
            SerialErrorKind::Io,
            "Windows returned an empty serial device instance ID"@,
        ),
{
    match decode_wide(units) {
        Some(id) => Ok(id),
        None => Err(
            SerialError::new(
                SerialErrorKind::Io,
                "Windows returned an empty serial device instance ID",
            ),
        ),
    }
}

/// Decides what reading a port name came to.
pub fn port_name_value(status: u32, bytes: &Vec<u8>) -> (name: Result<
    Option<String>,
    SerialError,
>)
    ensures
        name is Ok <==> status == ERROR_SUCCESS,
        name matches Ok(name) ==> text_view(name) == (if wide_texts(le_units(bytes@)).len() == 0 {
            None
        } else {
            Some(wide_texts(le_units(bytes@))[0])
        }),
        name matches Err(error) ==> error@ == code_error("RegQueryValueExW(PortName)"@, status),
{
    if status != ERROR_SUCCESS {
        return Err(from_code("RegQueryValueExW(PortName)", status));
    }
    Ok(decode_first_wide_string(bytes))
}

/// Where the walk over the devices goes on; none after the last device.
pub open spec fn next_device_of(index: u32, failure: Option<u32>) -> Result<
    Option<u32>,
    SerialErrorModel,
> {
    match failure {
        None => if index < u32::MAX {
            Ok(Some((index + 1) as u32))
        } else {
            Err(plain_error(SerialErrorKind::Io, "serial discovery index exhausted"@))
        },
        Some(code) => if code == ERROR_NO_MORE_ITEMS {
            Ok(None)
        } else {
            Err(code_error("SetupDiEnumDeviceInfo"@, code))
        },
    }
}

/// Decides what asking for the device at an index came to: the next index, or none after the last
/// device; `failure` is the status of a call that did not succeed.
pub fn next_device(index: u32, failure: Option<u32>) -> (next: Result<Option<u32>, SerialError>)
    ensures
        next is Ok <==> failure == Some(ERROR_NO_MORE_ITEMS) || (failure is None && index
            < u32::MAX),
        next matches Ok(next) ==> next == (if failure is None {
            Some((index + 1) as u32)
        } else {
            None
        }),
        next matches Err(error) ==> error@ == match failure {
            Some(code) => code_error("SetupDiEnumDeviceInfo"@, code),
            None => plain_error(SerialErrorKind::Io, "serial discovery index exhausted"@),
        },
        reply_view(next) == next_device_of(index, failure),
{
    if let Some(code) = failure {
        if code == ERROR_NO_MORE_ITEMS {
            return Ok(None);
        }
        return Err(from_code("SetupDiEnumDeviceInfo", code));
    }
    match index.checked_add(1) {
        Some(next) => Ok(Some(next)),
        None => Err(
            SerialError::new(SerialErrorKind::Io, "serial discovery index exhausted"),
        ),
    }
}

// ---- overlapped transfers ----

/// The bytes of a transfer that completed without any progress are refused.
pub fn normalize_progress(transferred: u32) -> (progress: Result<usize, SerialError>)
    ensures
        progress is Ok <==> transferred != 0,
        progress matches Ok(progress) ==> progress == transferred,
        progress matches Err(error) ==> error@ == plain_error(
            SerialErrorKind::ZeroProgress,
            "Windows serial I/O completed without byte progress"@,
        ),
{
    if transferred == 0 {
        Err(
            SerialError::new(
                SerialErrorKind::ZeroProgress,
                "Windows serial I/O completed without byte progress",
            ),
        )
    } else {
        Ok(transferred as usize)
    }
}

/// The error to report where an interruption may have caused it: only a native abort gives way.
pub open spec fn causal_error(
    error: SerialErrorModel,
    interruption: Option<SerialErrorModel>,
) -> SerialErrorModel {
    if error.os_code == Some(ERROR_OPERATION_ABORTED) && interruption is Some {
        interruption->0
    } else {
        error
    }
}

/// Returns the error to report where an interruption may have caused it.
pub fn prefer_causal_interruption(error: SerialError, interruption: Option<SerialError>) -> (
    preferred: SerialError)
    ensures
        preferred@ == causal_error(error@, error_view(interruption)),
{
    if error.os_code() == Some(ERROR_OPERATION_ABORTED) {
        match interruption {
            Some(interruption) => interruption,
            None => error,
        }
    } else {
        error
    }
}

/// Returns the error of a cancellation request; none where nothing was left to cancel.
pub fn cancel_request_error(code: u32) -> (error: Option<SerialError>)
    ensures
        error is Some <==> code != ERROR_NOT_FOUND,
        error matches Some(error) ==> error@ == code_error("CancelIoEx(serial I/O)"@, code),
{
    if code != ERROR_NOT_FOUND {
        Some(from_code("CancelIoEx(serial I/O)", code))
    } else {
        None
    }
}

/// Decides what a transfer came to that was cancelled: a completion that won stands, an abort shows
/// the interruption, and any other failure is shown as it is, unless the cancellation itself failed.
pub fn settle_cancelled_completion(
    cancel_error: Option<SerialError>,
    completion: Result<u32, SerialError>,
    interruption: SerialError,
) -> (settled: Result<u32, SerialError>)
    ensures
        settled is Ok <==> completion is Ok,
        completion matches Ok(transferred) ==> settled == Ok::<u32, SerialError>(transferred),
        completion matches Err(error) ==> (settled matches Err(shown) && shown@ == if
            error@.os_code == Some(ERROR_OPERATION_ABORTED) {
            interruption@
        } else {
            match cancel_error {
                Some(cancel_error) => cancel_error@,
                None => error@,
            }
        }),
{
    match completion {
        Ok(transferred) => Ok(transferred),
        Err(error) => {
            if error.os_code() == Some(ERROR_OPERATION_ABORTED) {
                return Err(interruption);
            }
            match cancel_error {
                Some(cancel_error) => Err(cancel_error),
                None => Err(error),
            }
        },
    }
}

/// The limit of a wait in milliseconds: rounded up, and never the one that means no limit.
pub open spec fn wait_ms_of(nanos: u128) -> u32 {
    let millis = (nanos + 999_999) / 1_000_000;
    if millis < INFINITE {
        millis as u32
    } else {
        (INFINITE - 1) as u32
    }
}

/// Returns the limit of a wait in milliseconds.
pub fn duration_to_wait_ms(duration: Duration) -> (millis: u32)
    ensures
        millis == wait_ms_of(nanos_of(duration)),
{
    let nanos: u128 = duration_as_nanos(duration);
    if nanos == 0 {
        return 0;
    }
    let whole: u128 = nanos / 1_000_000;
    let millis: u128 = if nanos % 1_000_000 == 0 {
        whole
    } else {
        whole + 1
    };
    if millis < INFINITE as u128 {
        millis as u32
    } else {
        INFINITE - 1
    }
}

/// Returns the limit of a wait for a deadline; none where the clock only moves by hand.
pub fn wait_timeout_ms(wait: Option<Duration>) -> (millis: u32)
    ensures
        millis == match wait {
            Some(wait) => wait_ms_of(nanos_of(wait)),
            None => INFINITE,
        },
{
    match wait {
        Some(wait) => duration_to_wait_ms(wait),
        None => INFINITE,
    }
}

/// Which way the bytes of a transfer go.
#[derive(Clone, Copy, Debug, PartialEq, Eq, Structural)]
pub enum TransferDirection {
    Read,
    Write,
}

/// The system call of a transfer.
pub open spec fn call_name(direction: TransferDirection) -> &'static str {
    match direction {
        TransferDirection::Read => "ReadFile(serial port)",
        TransferDirection::Write => "WriteFile(serial port)",
    }
}

impl TransferDirection {
    /// Returns the system call of a transfer.
    pub fn operation_name(self) -> (name: &'static str)
        ensures
            name == call_name(self),
    {
        match self {
            TransferDirection::Read => "ReadFile(serial port)",
            TransferDirection::Write => "WriteFile(serial port)",
        }
    }
}

fn disconnected_error(message: &'static str) -> (error: SerialError)
    ensures
        error@ == plain_error(SerialErrorKind::Disconnected, message@),
{
    SerialError::new(SerialErrorKind::Disconnected, message)
}

/// The error of a port that was closed during a transfer.
pub open spec fn closed_error() -> SerialErrorModel {
    plain_error(SerialErrorKind::Disconnected, "serial port closed during byte I/O"@)
}

/// Decides whether a transfer may start: it needs a buffer, no interruption, and an open port; the
/// first that is missing is the error.
pub fn begin_transfer(length: usize, interruption: Option<SerialError>, closed: bool) -> (begun:
    Result<u32, SerialError>)
    ensures
        begun is Ok <==> length != 0 && interruption is None && !closed,
        begun matches Ok(requested) ==> requested == if length <= u32::MAX {
            length as u32
        } else {
            u32::MAX
        },
        begun matches Err(error) ==> error@ == if length == 0 {
            plain_error(
                SerialErrorKind::InvalidPort,
                "serial byte I/O buffer must be non-empty"@,
            )
        } else if interruption is Some {
            interruption->0@
        } else {
            plain_error(SerialErrorKind::Disconnected, "serial port is closed"@)
        },
{
    if length == 0 {
        return Err(
            SerialError::new(
                SerialErrorKind::InvalidPort,
                "serial byte I/O buffer must be non-empty",
            ),
        );
    }
    if let Some(error) = interruption {
        return Err(error);
    }
    if closed {
        return Err(disconnected_error("serial port is closed"));
    }
    if length <= u32::MAX as usize {
        Ok(length as u32)
    } else {
        Ok(u32::MAX)
    }
}

/// Decides what a transfer that did not complete at once came to: none where it is pending,
/// otherwise its error.
pub fn start_failure(
    direction: TransferDirection,
    code: u32,
    interruption: Option<SerialError>,
) -> (failure: Option<SerialError>)
    ensures
        failure is None <==> code == ERROR_IO_PENDING,
        failure matches Some(failure) ==> failure@ == causal_error(
            code_error(call_name(direction)@, code),
            error_view(interruption),
        ),
{
    if code == ERROR_IO_PENDING {
        return None;
    }
    let error = from_code(direction.operation_name(), code);
    Some(prefer_causal_interruption(error, interruption))
}

/// What a pending transfer has to do.
pub enum PendingStep {
    /// Wait for completion, interruption or close, at most this many milliseconds.
    Wait(u32),
    /// Take the completed result.
    Complete,
    /// Look again.
    Again,
    /// Cancel the transfer, and settle it with this error.
    Cancel(SerialError),
}

/// Decides what a pending transfer does before it waits: an interruption comes before a close.
pub fn before_wait(interruption: Option<SerialError>, closed: bool, wait: Option<Duration>) -> (
    step: PendingStep)
    ensures
        step is Wait <==> interruption is None && !closed,
        step is Cancel <==> interruption is Some || closed,
        step matches PendingStep::Wait(millis) ==> millis == match wait {
            Some(wait) => wait_ms_of(nanos_of(wait)),
            None => INFINITE,
        },
        step matches PendingStep::Cancel(error) ==> error@ == if interruption is Some {
            interruption->0@
        } else {
            closed_error()
        },
{
    if let Some(error) = interruption {
        return PendingStep::Cancel(error);
    }
    if closed {
        return PendingStep::Cancel(disconnected_error("serial port closed during byte I/O"));
    }
    PendingStep::Wait(wait_timeout_ms(wait))
}

/// Decides what a wait for completion, interruption and close, in this order, came to; `code` is the
/// status of a wait that failed.
pub fn after_wait(status: u32, code: u32) -> (step: PendingStep)
    ensures
        step is Complete <==> status == WAIT_OBJECT_0,
        step is Again <==> status == WAIT_OBJECT_0 + 1 || status == WAIT_TIMEOUT,
        step !is Wait,
        step matches PendingStep::Cancel(error) ==> error@ == if status == WAIT_OBJECT_0 + 2 {
            closed_error()
        } else if status == WAIT_FAILED {
            code_error("WaitForMultipleObjects(serial I/O)"@, code)
        } else {
            plain_error(
                SerialErrorKind::Io,
                "WaitForMultipleObjects returned an unexpected status"@,
            )
        },
{
    if status == WAIT_OBJECT_0 {
        PendingStep::Complete
    } else if status == WAIT_OBJECT_0 + 1 || status == WAIT_TIMEOUT {
        PendingStep::Again
    } else if status == WAIT_OBJECT_0 + 2 {
        PendingStep::Cancel(disconnected_error("serial port closed during byte I/O"))
    } else if status == WAIT_FAILED {
        PendingStep::Cancel(from_code("WaitForMultipleObjects(serial I/O)", code))
    } else {
        PendingStep::Cancel(
            SerialError::new(
                SerialErrorKind::Io,
                "WaitForMultipleObjects returned an unexpected status",
            ),
        )
    }
}

/// Decides what a completed transfer came to: an abort shows the interruption or the close behind
/// it.
pub fn completed_transfer(
    completion: Result<u32, SerialError>,
    interruption: Option<SerialError>,
    closed: bool,
) -> (result: Result<u32, SerialError>)
    ensures
        result is Ok <==> completion is Ok,
        completion matches Ok(transferred) ==> result == Ok::<u32, SerialError>(transferred),
        completion matches Err(error) ==> (result matches Err(shown) && shown@ == causal_error(
            error@,
            if interruption is Some {
                error_view(interruption)
            } else if closed {
                Some(closed_error())
            } else {
                None
            },
        )),
{
    match completion {
        Ok(transferred) => Ok(transferred),
        Err(error) => {
            let cause = match interruption {
                Some(interruption) => Some(interruption),
                None => if closed {
                    Some(disconnected_error("serial port closed during byte I/O"))
                } else {
                    None
                },
            };
            Err(prefer_causal_interruption(error, cause))
        },
    }
}

/// What a purge of pending input comes to before it is asked for.
pub open spec fn discard_begun(interruption: Option<SerialErrorModel>, closed: bool) -> Result<
    (),
    SerialErrorModel,
> {
    if interruption is Some {
        Err(interruption->0)
    } else if closed {
        Err(
            plain_error(SerialErrorKind::Disconnected, "serial port closed before input purge"@),
        )
    } else {
        Ok(())
    }
}

/// Decides whether pending input may be purged.
pub fn begin_discard(interruption: Option<SerialError>, closed: bool) -> (begun: Result<
    (),
    SerialError,
>)
    ensures
        begun is Ok <==> interruption is None && !closed,
        begun matches Err(error) ==> error@ == if interruption is Some {
            interruption->0@
        } else {
            plain_error(SerialErrorKind::Disconnected, "serial port closed before input purge"@)
        },
        reply_view(begun) == discard_begun(error_view(interruption), closed),
{
    if let Some(error) = interruption {
        return Err(error);
    }
    if closed {
        return Err(disconnected_error("serial port closed before input purge"));
    }
    Ok(())
}

/// The device path at which a port is opened, or why it is not.
pub open spec fn path_of(
    port_name: Seq<char>,
    baud_rate: u32,
    interruption: Option<SerialErrorModel>,
) -> Result<Seq<u16>, SerialErrorModel> {
    if interruption is Some {
        Err(interruption->0)
    } else if baud_rate == 0 {
        Err(plain_error(SerialErrorKind::InvalidPort, "serial baud rate must be non-zero"@))
    } else if is_openable(port_name) {
        Ok(utf16(device_prefix() + bare_name(port_name)).push(0))
    } else {
        Err(
            plain_error(
                SerialErrorKind::InvalidPort,
                "Windows serial port name must be COM followed by decimal digits"@,
            ),
        )
    }
}

/// Decides whether a port may be opened, and returns its device path: an interruption comes first,
/// then the baud rate, then the name.
pub fn open_path(
    port: &SerialPortDescriptor,
    baud_rate: u32,
    interruption: Option<SerialError>,
) -> (path: Result<Vec<u16>, SerialError>)
    ensures
        path is Ok <==> interruption is None && baud_rate != 0 && is_openable(port@.port_name),
        path matches Ok(path) ==> path@ == utf16(
            device_prefix() + bare_name(port@.port_name),
        ).push(0),
        path matches Err(error) ==> error@ == if interruption is Some {
            interruption->0@
        } else if baud_rate == 0 {
            plain_error(SerialErrorKind::InvalidPort, "serial baud rate must be non-zero"@)
        } else {
            plain_error(
                SerialErrorKind::InvalidPort,
                "Windows serial port name must be COM followed by decimal digits"@,
            )
        },
        (match path {
            Ok(path) => Ok::<Seq<u16>, SerialErrorModel>(path@),
            Err(error) => Err::<Seq<u16>, SerialErrorModel>(error@),
        }) == path_of(port@.port_name, baud_rate, error_view(interruption)),
{
    if let Some(error) = interruption {
        return Err(error);
    }
    if baud_rate == 0 {
        return Err(
            SerialError::new(
                SerialErrorKind::InvalidPort,
                "serial baud rate must be non-zero",
            ),
        );
    }
    port_path(port.port_name())
}

/// The line of an open port: eight data bits, no parity, one stop bit, and no flow control.
#[derive(Clone, Copy, Debug, PartialEq, Eq, Structural)]
pub struct LineSettings {
    pub baud_rate: u32,
    /// Binary mode alone.
    pub flags: u32,
    pub byte_size: u8,
    pub parity: u8,
    pub stop_bits: u8,
    /// Size of the driver's input and output queues.
    pub queue_bytes: u32,
}

/// Returns the line of a port that is opened at a baud rate.
pub fn line_settings(baud_rate: u32) -> (line: LineSettings)
    ensures
        line == (LineSettings {
            baud_rate,
            flags: 1,
            byte_size: 8,
            parity: 0,
            stop_bits: 0,
            queue_bytes: 4096,
        }),
{
    LineSettings {
        baud_rate,
        flags: 1,
        byte_size: 8,
        parity: 0,
        stop_bits: 0,
        queue_bytes: 4096,
    }
}

/// Whatever is opened is a serial port: the device path of an accepted name is `\\.\COM` and digits.
pub proof fn law_only_serial_devices_are_opened(name: Seq<char>)
    requires
        is_openable(name),
    ensures
        ({
            let path = device_prefix() + bare_name(name);
            &&& path.len() <= 4 + MAX_COM_PORT_NAME_CHARS
            &&& upper(path[4]) == 'C' && upper(path[5]) == 'O' && upper(path[6]) == 'M'
            &&& forall|k: int| 7 <= k < path.len() ==> is_digit(#[trigger] path[k])
        }),
{
    let path = device_prefix() + bare_name(name);
    assert forall|k: int| 7 <= k < path.len() implies is_digit(#[trigger] path[k]) by {
        assert(path[k] == bare_name(name)[k - 4]);
    }
}

/// A finite wait is never taken for one without a limit, and never ends early.
pub proof fn law_finite_wait_stays_finite(nanos: u128)
    ensures
        wait_ms_of(nanos) != INFINITE,
        nanos <= (INFINITE - 1) * 1_000_000 ==> wait_ms_of(nanos) * 1_000_000 >= nanos,
        wait_ms_of(nanos) == 0 <==> nanos == 0,
{
}

/// An interruption explains a native abort and nothing else: any other failure is shown as it is.
pub proof fn law_interruption_explains_only_an_abort(
    error: SerialErrorModel,
    interruption: SerialErrorModel,
)
    ensures
        error.os_code == Some(ERROR_OPERATION_ABORTED) ==> causal_error(error, Some(interruption))
            == interruption,
        error.os_code != Some(ERROR_OPERATION_ABORTED) ==> causal_error(error, Some(interruption))
            == error,
        causal_error(error, None) == error,
{
}

} // verus!
