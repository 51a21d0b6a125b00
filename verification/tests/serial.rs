//! Serial scenarios: ports, texts, Windows decisions, transfers and the Controller transport.

use easycon::cancellation::{CancellationToken, CancellationTree};
use easycon::model::{OperationId, ResourceId};
use easycon::serial::discovery::{collect_ports, SerialPortDescriptor, UsbIdentifiers};
use easycon::serial::error::{SerialError, SerialErrorKind};
use easycon::serial::io::{
    ByteIo, ByteIoFactory, ByteIoOperation, ByteIoRequest, CallWatch, SettlementReply,
    SettlementStep, WriteContext, WriteKind,
};
use easycon::serial::text::{
    blank, decode_first_wide_string, decode_wide, decode_wide_strings, wide_nul,
};
use easycon::serial::transport::{
    AckRequest, HandshakeRequest, SerialControllerTransport, TransportErrorKind, WriteRequest,
};
use easycon::serial::windows::transfer::{Transfer, TransferEvent, TransferStage};
use easycon::serial::windows::{
    cancel_request_error, describe_ports, device_instance_id, duration_to_wait_ms, from_code,
    instance_id_size, is_com_port_name, line_settings, next_device, normalize_progress, open_path,
    parse_usb_identifiers, port_name_size, port_name_value, port_path, prefer_causal_interruption,
    property_size, settle_cancelled_completion, validate_property_size, wait_timeout_ms,
    DeviceReport, SizeAnswer, TransferDirection, ERROR_ACCESS_DENIED, ERROR_DEVICE_NOT_CONNECTED,
    ERROR_FILE_NOT_FOUND, ERROR_GEN_FAILURE, ERROR_INSUFFICIENT_BUFFER, ERROR_INVALID_DATA,
    ERROR_INVALID_HANDLE, ERROR_IO_PENDING, ERROR_NOT_FOUND, ERROR_NO_MORE_ITEMS,
    ERROR_OPERATION_ABORTED, ERROR_PATH_NOT_FOUND, ERROR_SEM_TIMEOUT, ERROR_SHARING_VIOLATION,
    ERROR_SUCCESS, INFINITE, REG_MULTI_SZ, REG_SZ, WAIT_FAILED, WAIT_OBJECT_0, WAIT_TIMEOUT,
};
use std::cell::RefCell;
use std::collections::VecDeque;
use std::rc::Rc;
use std::time::Duration;
use windows_sys::Win32::Foundation as native;
use windows_sys::Win32::System::Registry as registry;
use windows_sys::Win32::System::Threading as threading;

const HANDSHAKE_REQUEST: [u8; 3] = [0xa5, 0xa5, 0x81];
const HANDSHAKE_REPLY: u8 = 0x80;

// ---- ports ----

#[test]
fn stable_identity_is_independent_from_optional_labels_and_port_assignment() {
    let first = SerialPortDescriptor::new("USB\\VID_1234&PID_ABCD\\SERIAL", "COM3")
        .expect("descriptor")
        .with_friendly_name("USB serial port")
        .with_manufacturer("Example")
        .with_usb_identifiers(UsbIdentifiers { vid: 0x1234, pid: 0xabcd });
    let reassigned =
        SerialPortDescriptor::new(first.stable_id(), "COM19").expect("reassigned descriptor");

    assert_eq!(first.stable_id(), reassigned.stable_id());
    assert_ne!(first.port_name(), reassigned.port_name());
    assert_eq!(
        first.usb_identifiers(),
        Some(UsbIdentifiers { vid: 0x1234, pid: 0xabcd })
    );
}

#[test]
fn identity_fields_must_be_explicit_and_non_empty() {
    let error = SerialPortDescriptor::new(" ", "COM1").expect_err("empty stable ID");
    assert_eq!(error.kind(), SerialErrorKind::InvalidPort);

    let error = SerialPortDescriptor::new("instance", "").expect_err("empty port");
    assert_eq!(error.kind(), SerialErrorKind::InvalidPort);
}

#[test]
fn labels_are_kept_unless_they_are_blank() {
    let port = SerialPortDescriptor::new("id", "COM1")
        .expect("descriptor")
        .with_friendly_name("A port")
        .with_manufacturer("\u{2003}\t");
    assert_eq!(port.friendly_name(), Some("A port"));
    assert_eq!(port.manufacturer(), None);
    assert_eq!(port.usb_identifiers(), None);
}

#[test]
fn usb_ids_come_only_from_explicit_hardware_id_components() {
    assert_eq!(
        parse_usb_identifiers("USB\\VID_1A86&PID_7523&REV_0264"),
        Some(UsbIdentifiers { vid: 0x1a86, pid: 0x7523 })
    );
    assert_eq!(parse_usb_identifiers("ROOT\\PORTS\\0000"), None);
    assert_eq!(parse_usb_identifiers("COM3"), None);
    assert_eq!(parse_usb_identifiers("USB\\VID_ZZZZ&PID_7523"), None);
    assert_eq!(parse_usb_identifiers("USB\\VID_12345&PID_7523"), None);
    assert_eq!(
        parse_usb_identifiers("usb\\vid_00ff&pid_abcd"),
        Some(UsbIdentifiers { vid: 0x00ff, pid: 0xabcd })
    );
    assert_eq!(parse_usb_identifiers("VID_1234&VID_ZZZZ&PID_12"), None);
}

#[test]
fn only_system_com_port_values_are_openable_serial_names() {
    assert!(is_com_port_name("COM1"));
    assert!(is_com_port_name("com42"));
    assert!(!is_com_port_name("LPT1"));
    assert!(!is_com_port_name("COM"));
    assert!(!is_com_port_name("COM4 description"));
}

#[test]
fn port_paths_are_canonical_and_do_not_open_arbitrary_devices() {
    assert_eq!(
        String::from_utf16_lossy(&port_path("COM12").expect("COM path")),
        "\\\\.\\COM12\0"
    );
    assert!(port_path(r"\\.\com4").is_ok());
    assert_eq!(
        port_path("COM-test").expect_err("invalid port").kind(),
        SerialErrorKind::InvalidPort
    );
    assert!(port_path(r"\\.\PhysicalDrive0").is_err());
    let longest = format!("COM{}", "1".repeat(61));
    assert!(port_path(&longest).is_ok());
    assert!(port_path(&format!("{longest}1")).is_err());
    assert!(port_path("COM1\0").is_err());
}

fn report(stable_id: &str, port_name: Option<&str>, hardware_ids: &[&str]) -> DeviceReport {
    DeviceReport {
        port_name: port_name.map(str::to_string),
        stable_id: stable_id.to_string(),
        friendly_name: Some("Port".to_string()),
        manufacturer: None,
        hardware_ids: hardware_ids.iter().map(|id| id.to_string()).collect(),
    }
}

#[test]
fn discovery_is_sorted_and_has_stable_identity() {
    let ports = describe_ports(&vec![
        report("b", Some("COM2"), &["ROOT", "USB\\VID_0001&PID_0002"]),
        report("printer", Some("LPT1"), &[]),
        report("nothing", None, &[]),
        report("a", Some("COM9"), &[]),
        report("b", Some("COM3"), &[]),
        report("B", Some("COM1"), &[]),
    ])
    .expect("ports");
    let names: Vec<(&str, &str)> =
        ports.iter().map(|port| (port.stable_id(), port.port_name())).collect();
    assert_eq!(names, [("B", "COM1"), ("a", "COM9"), ("b", "COM2")]);
    assert_eq!(ports[2].usb_identifiers(), Some(UsbIdentifiers { vid: 1, pid: 2 }));
    assert_eq!(ports[0].friendly_name(), Some("Port"));
    assert!(ports.windows(2).all(|pair| pair[0].stable_id() < pair[1].stable_id()));

    let error = describe_ports(&vec![report("  ", Some("COM2"), &[])]).expect_err("no identity");
    assert_eq!(error.kind(), SerialErrorKind::InvalidPort);
    assert!(describe_ports(&vec![report("", Some("LPT2"), &[])]).expect("skipped").is_empty());
}

#[test]
fn ports_are_ordered_like_strings() {
    let ids = ["z", "\u{e9}", "ab", "a", "\u{10000}", "\u{ffff}", "aa", "a"];
    let ports = ids
        .iter()
        .map(|id| SerialPortDescriptor::new(id, "COM1").expect("descriptor"))
        .collect();
    let ordered = collect_ports(ports);
    let observed: Vec<&str> = ordered.iter().map(|port| port.stable_id()).collect();
    let mut expected = ids.to_vec();
    expected.sort();
    expected.dedup();
    assert_eq!(observed, expected);
}

// ---- texts and errors ----

#[test]
fn wide_texts_round_trip() {
    for text in ["COM1", "\u{e9}\u{2003}", "a\u{1f600}b", "x"] {
        let units = wide_nul(text);
        let mut expected: Vec<u16> = text.encode_utf16().collect();
        expected.push(0);
        assert_eq!(units, expected);
        assert_eq!(decode_wide(&units), Some(text.to_string()));
    }
    assert_eq!(decode_wide(&vec![0, 65]), None);
    assert_eq!(decode_wide(&vec![]), None);
    let broken = vec![0xd800, 65, 0xdc00, 0xdbff];
    assert_eq!(decode_wide(&broken), Some(String::from_utf16_lossy(&broken)));
    assert_eq!(
        device_instance_id(&vec![0]).expect_err("empty").kind(),
        SerialErrorKind::Io
    );
    assert_eq!(device_instance_id(&vec![85, 0, 86]).expect("id"), "U");
}

fn le_bytes(units: &[u16]) -> Vec<u8> {
    units.iter().flat_map(|unit| unit.to_le_bytes()).collect()
}

#[test]
fn multi_texts_split_at_zeros() {
    let mut units: Vec<u16> = Vec::new();
    units.extend("one".encode_utf16());
    units.extend([0, 0]);
    units.extend("two\u{1f600}".encode_utf16());
    units.extend([0, 0]);
    let mut bytes = le_bytes(&units);
    assert_eq!(decode_wide_strings(&bytes), ["one", "two\u{1f600}"]);
    bytes.push(7);
    assert_eq!(decode_wide_strings(&bytes), ["one", "two\u{1f600}"]);
    assert_eq!(decode_first_wide_string(&bytes), Some("one".to_string()));
    assert_eq!(decode_first_wide_string(&vec![0, 0]), None);
    assert_eq!(
        port_name_value(ERROR_SUCCESS, &bytes).expect("name"),
        Some("one".to_string())
    );
    assert_eq!(port_name_value(5, &bytes).expect_err("denied").os_code(), Some(5));
}

#[test]
fn errors_show_category_message_and_code() {
    let error = SerialError::new(SerialErrorKind::PortBusy, "in use");
    assert_eq!(error.text(), "PortBusy: in use");
    assert_eq!(error.message(), "in use");
    assert_eq!(error.os_code(), None);
    assert!(!error.backend_proved_zero_effect());
    let coded = from_code("ReadFile", 4_294_967_295);
    assert_eq!(coded.text(), "Io: ReadFile failed (os_code=4294967295)");
    assert_eq!(from_code("x", 0).text(), "Io: x failed (os_code=0)");
    assert!(SerialError::zero_effect(SerialErrorKind::Cancelled, "c").backend_proved_zero_effect());
}

#[test]
fn native_open_and_disconnect_codes_have_stable_categories() {
    assert_eq!(from_code("open", ERROR_ACCESS_DENIED).kind(), SerialErrorKind::AccessDenied);
    assert_eq!(from_code("open", ERROR_SHARING_VIOLATION).kind(), SerialErrorKind::PortBusy);
    assert_eq!(
        from_code("read", ERROR_DEVICE_NOT_CONNECTED).kind(),
        SerialErrorKind::Disconnected
    );
    assert_eq!(
        from_code("read", ERROR_OPERATION_ABORTED).kind(),
        SerialErrorKind::Disconnected
    );
    assert_eq!(from_code("open", ERROR_PATH_NOT_FOUND).kind(), SerialErrorKind::NotFound);
    assert_eq!(from_code("read", ERROR_SEM_TIMEOUT).kind(), SerialErrorKind::DeadlineExceeded);
}

#[test]
fn status_codes_are_those_of_the_system() {
    let codes = [
        (ERROR_SUCCESS, native::ERROR_SUCCESS),
        (ERROR_FILE_NOT_FOUND, native::ERROR_FILE_NOT_FOUND),
        (ERROR_PATH_NOT_FOUND, native::ERROR_PATH_NOT_FOUND),
        (ERROR_ACCESS_DENIED, native::ERROR_ACCESS_DENIED),
        (ERROR_INVALID_HANDLE, native::ERROR_INVALID_HANDLE),
        (ERROR_INVALID_DATA, native::ERROR_INVALID_DATA),
        (ERROR_GEN_FAILURE, native::ERROR_GEN_FAILURE),
        (ERROR_SHARING_VIOLATION, native::ERROR_SHARING_VIOLATION),
        (ERROR_SEM_TIMEOUT, native::ERROR_SEM_TIMEOUT),
        (ERROR_INSUFFICIENT_BUFFER, native::ERROR_INSUFFICIENT_BUFFER),
        (ERROR_NO_MORE_ITEMS, native::ERROR_NO_MORE_ITEMS),
        (ERROR_OPERATION_ABORTED, native::ERROR_OPERATION_ABORTED),
        (ERROR_IO_PENDING, native::ERROR_IO_PENDING),
        (ERROR_DEVICE_NOT_CONNECTED, native::ERROR_DEVICE_NOT_CONNECTED),
        (ERROR_NOT_FOUND, native::ERROR_NOT_FOUND),
        (WAIT_OBJECT_0, native::WAIT_OBJECT_0),
        (WAIT_TIMEOUT, native::WAIT_TIMEOUT),
        (WAIT_FAILED, native::WAIT_FAILED),
        (INFINITE, threading::INFINITE),
        (REG_SZ, registry::REG_SZ),
        (REG_MULTI_SZ, registry::REG_MULTI_SZ),
    ];
    for (ours, theirs) in codes {
        assert_eq!(ours, theirs);
    }
}

#[test]
fn system_values_are_sized_before_they_are_read() {
    assert_eq!(port_name_size(ERROR_FILE_NOT_FOUND, 0, 0).expect("absent"), SizeAnswer::Absent);
    assert_eq!(port_name_size(0, REG_MULTI_SZ, 8).expect("other type"), SizeAnswer::Absent);
    assert_eq!(port_name_size(0, REG_SZ, 0).expect("empty"), SizeAnswer::Absent);
    assert_eq!(port_name_size(0, REG_SZ, 10).expect("sized"), SizeAnswer::Bytes(10));
    assert_eq!(
        port_name_size(0, REG_SZ, 65_537).expect_err("too long").message(),
        "Windows serial PortName exceeds the discovery limit"
    );
    assert_eq!(port_name_size(5, REG_SZ, 10).expect_err("denied").os_code(), Some(5));

    assert_eq!(property_size(Some(ERROR_INVALID_DATA), 0, 0).expect("no"), SizeAnswer::Absent);
    assert_eq!(
        property_size(Some(ERROR_INSUFFICIENT_BUFFER), REG_MULTI_SZ, 12).expect("sized"),
        SizeAnswer::Bytes(12)
    );
    assert!(property_size(Some(ERROR_INSUFFICIENT_BUFFER), REG_MULTI_SZ, 0).is_err());
    assert_eq!(property_size(None, 4, 12).expect("other type"), SizeAnswer::Absent);
    assert!(property_size(None, REG_SZ, 65_537).is_err());

    assert_eq!(instance_id_size(Some(ERROR_INSUFFICIENT_BUFFER), 20).expect("sized"), 20);
    assert!(instance_id_size(Some(ERROR_INSUFFICIENT_BUFFER), 0).is_err());
    assert!(instance_id_size(None, 4_097).is_err());
    assert!(instance_id_size(Some(31), 20).is_err());

    assert!(validate_property_size(65_536, "x").is_ok());
    assert_eq!(next_device(3, None).expect("next"), Some(4));
    assert_eq!(next_device(3, Some(ERROR_NO_MORE_ITEMS)).expect("last"), None);
    assert_eq!(next_device(3, Some(31)).expect_err("failed").os_code(), Some(31));
    assert_eq!(
        next_device(u32::MAX, None).expect_err("exhausted").message(),
        "serial discovery index exhausted"
    );
}

// ---- transfers ----

#[test]
fn deadline_wait_rounds_up_without_using_infinite_for_finite_values() {
    assert_eq!(duration_to_wait_ms(Duration::ZERO), 0);
    assert_eq!(duration_to_wait_ms(Duration::from_nanos(1)), 1);
    assert_eq!(duration_to_wait_ms(Duration::from_millis(1)), 1);
    assert_eq!(duration_to_wait_ms(Duration::MAX), INFINITE - 1);
    assert_eq!(duration_to_wait_ms(Duration::from_nanos(1_000_001)), 2);
    assert_eq!(wait_timeout_ms(None), INFINITE);
    assert_eq!(wait_timeout_ms(Some(Duration::from_micros(1500))), 2);
}

#[test]
fn explicit_interruption_overrides_only_a_native_aborted_completion() {
    let aborted = from_code("read", ERROR_OPERATION_ABORTED);
    let cancelled = SerialError::new(SerialErrorKind::Cancelled, "operation cancelled");
    assert_eq!(
        prefer_causal_interruption(aborted.clone(), Some(cancelled)).kind(),
        SerialErrorKind::Cancelled
    );
    assert_eq!(
        prefer_causal_interruption(aborted, None).kind(),
        SerialErrorKind::Disconnected
    );

    let io = SerialError::new(SerialErrorKind::Io, "unrelated failure");
    let deadline = SerialError::new(SerialErrorKind::DeadlineExceeded, "deadline");
    assert_eq!(
        prefer_causal_interruption(io, Some(deadline)).kind(),
        SerialErrorKind::Io
    );
}

#[test]
fn cancel_not_found_still_consumes_a_full_overlapped_completion() {
    let interruption = SerialError::new(SerialErrorKind::Cancelled, "close requested");
    assert!(cancel_request_error(ERROR_NOT_FOUND).is_none());
    assert_eq!(
        settle_cancelled_completion(cancel_request_error(ERROR_NOT_FOUND), Ok(8), interruption)
            .expect("final eight-byte completion wins over late cancellation"),
        8
    );
}

#[test]
fn a_cancelled_call_shows_why_it_ended() {
    let interruption = || SerialError::new(SerialErrorKind::Cancelled, "cancelled");
    let aborted = from_code("read", ERROR_OPERATION_ABORTED);
    let settled = settle_cancelled_completion(cancel_request_error(5), Err(aborted), interruption());
    assert_eq!(settled.expect_err("aborted").kind(), SerialErrorKind::Cancelled);
    let broken = from_code("read", ERROR_GEN_FAILURE);
    let settled =
        settle_cancelled_completion(cancel_request_error(5), Err(broken.clone()), interruption());
    assert_eq!(settled.expect_err("refused").os_code(), Some(5));
    let settled = settle_cancelled_completion(None, Err(broken), interruption());
    assert_eq!(settled.expect_err("broken").os_code(), Some(ERROR_GEN_FAILURE));
    assert_eq!(normalize_progress(0).expect_err("zero").kind(), SerialErrorKind::ZeroProgress);
    assert_eq!(normalize_progress(9).expect("nine"), 9);
}

#[test]
fn invalid_descriptor_is_rejected_before_a_system_open() {
    let descriptor =
        SerialPortDescriptor::new("ROOT\\TEST\\0", "COM-test").expect("structured descriptor");
    let error = open_path(&descriptor, 115_200, None).expect_err("invalid name");
    assert_eq!(error.kind(), SerialErrorKind::InvalidPort);
    assert_eq!(error.os_code(), None);

    let error = open_path(&descriptor, 0, None).expect_err("baud rate");
    assert_eq!(error.message(), "serial baud rate must be non-zero");
    let interruption = SerialError::zero_effect(SerialErrorKind::Cancelled, "cancelled");
    let error = open_path(&descriptor, 0, Some(interruption)).expect_err("interrupted");
    assert_eq!(error.kind(), SerialErrorKind::Cancelled);
    let line = line_settings(115_200);
    assert_eq!((line.baud_rate, line.byte_size, line.parity, line.stop_bits), (115_200, 8, 0, 0));
}

#[test]
fn a_pending_transfer_waits_and_reports_its_bytes() {
    let (transfer, stage) = Transfer::new(TransferDirection::Write, 8);
    let stage = transfer.advance(stage, TransferEvent::Looked(None, false, None));
    assert!(matches!(stage, TransferStage::Starting(8)));
    let stage = transfer.advance(stage, TransferEvent::NotStarted(ERROR_IO_PENDING, None));
    assert!(matches!(stage, TransferStage::Pending));
    let stage = transfer.advance(
        stage,
        TransferEvent::Looked(None, false, Some(Duration::from_millis(3))),
    );
    assert!(matches!(stage, TransferStage::Waiting(3)));
    let stage = transfer.advance(stage, TransferEvent::Waited(WAIT_TIMEOUT, 0));
    assert!(matches!(stage, TransferStage::Pending));
    let cancelled = SerialError::zero_effect(SerialErrorKind::Cancelled, "cancelled");
    let stage = transfer.advance(stage, TransferEvent::Looked(Some(cancelled), false, None));
    assert!(matches!(&stage, TransferStage::Cancelling(error)
        if error.kind() == SerialErrorKind::Cancelled));
    let stage = transfer.advance(stage, TransferEvent::CancelRequested(Some(ERROR_NOT_FOUND)));
    assert!(matches!(stage, TransferStage::Settling(None, _)));
    let stage = transfer.advance(stage, TransferEvent::Taken(Ok(8), None, false));
    assert!(matches!(stage, TransferStage::Publishing(8)));
    let stage = transfer.advance(stage, TransferEvent::Published(None));
    assert!(matches!(stage, TransferStage::Ended(Ok(8))));
}

#[test]
fn a_transfer_ends_with_the_cause_of_an_abort() {
    let (transfer, stage) = Transfer::new(TransferDirection::Read, 1);
    let stage = transfer.advance(stage, TransferEvent::Looked(None, false, None));
    let stage = transfer.advance(stage, TransferEvent::NotStarted(ERROR_IO_PENDING, None));
    let stage = transfer.advance(stage, TransferEvent::Looked(None, false, None));
    assert!(matches!(stage, TransferStage::Waiting(INFINITE)));
    let stage = transfer.advance(stage, TransferEvent::Waited(WAIT_OBJECT_0, 0));
    assert!(matches!(stage, TransferStage::Finishing));
    let stage =
        transfer.advance(stage, TransferEvent::Taken(Err(ERROR_OPERATION_ABORTED), None, true));
    let TransferStage::Ended(Err(error)) = stage else {
        panic!("the transfer failed");
    };
    assert_eq!(error.message(), "serial port closed during byte I/O");

    let (transfer, stage) = Transfer::new(TransferDirection::Read, 0);
    let stage = transfer.advance(stage, TransferEvent::Looked(None, true, None));
    assert!(matches!(stage, TransferStage::Ended(Err(error))
        if error.message() == "serial byte I/O buffer must be non-empty"));

    let (transfer, stage) = Transfer::new(TransferDirection::Read, 4);
    let stage = transfer.advance(stage, TransferEvent::Looked(None, false, None));
    let stage = transfer.advance(stage, TransferEvent::Started);
    let stage = transfer.advance(stage, TransferEvent::Taken(Ok(0), None, false));
    assert!(matches!(stage, TransferStage::Ended(Err(error))
        if error.kind() == SerialErrorKind::ZeroProgress));

    let (transfer, stage) = Transfer::new(TransferDirection::Write, 4);
    let stage = transfer.advance(stage, TransferEvent::Looked(None, false, None));
    let stage = transfer.advance(stage, TransferEvent::NotStarted(ERROR_GEN_FAILURE, None));
    assert!(matches!(stage, TransferStage::Ended(Err(error))
        if error.message() == "WriteFile(serial port) failed"));
}

#[test]
fn a_transfer_that_panics_or_closes_is_settled_first() {
    let pending = || {
        let (transfer, stage) = Transfer::new(TransferDirection::Write, 8);
        let stage = transfer.advance(stage, TransferEvent::Looked(None, false, None));
        let stage = transfer.advance(stage, TransferEvent::NotStarted(ERROR_IO_PENDING, None));
        (transfer, stage)
    };
    for result in [Err(ERROR_OPERATION_ABORTED), Ok(4)] {
        let (transfer, stage) = pending();
        let stage = transfer.advance(stage, TransferEvent::Panicked);
        assert!(matches!(stage, TransferStage::Unwinding));
        let stage = transfer.advance(stage, TransferEvent::CancelRequested(None));
        assert!(matches!(stage, TransferStage::Draining));
        let stage = transfer.advance(stage, TransferEvent::Taken(result, None, false));
        assert!(matches!(stage, TransferStage::Unwound));
    }

    for (status, message) in [
        (WAIT_OBJECT_0 + 2, "serial port closed during byte I/O"),
        (WAIT_FAILED, "WaitForMultipleObjects(serial I/O) failed"),
        (77, "WaitForMultipleObjects returned an unexpected status"),
    ] {
        let (transfer, stage) = pending();
        let stage = transfer.advance(stage, TransferEvent::Looked(None, false, None));
        let stage = transfer.advance(stage, TransferEvent::Waited(status, 6));
        assert!(matches!(stage, TransferStage::Cancelling(error) if error.message() == message));
    }
    let (transfer, stage) = pending();
    let stage = transfer.advance(stage, TransferEvent::Looked(None, false, None));
    let stage = transfer.advance(stage, TransferEvent::Waited(WAIT_OBJECT_0 + 1, 0));
    assert!(matches!(stage, TransferStage::Pending));
}

// ---- the transport ----

#[derive(Default)]
struct State {
    now_ns: u64,
    tree: Option<CancellationTree>,
    opened_bauds: Vec<u32>,
    reads: VecDeque<Result<Vec<u8>, SerialError>>,
    writes: Vec<u8>,
    chunks: VecDeque<usize>,
    discard_count: usize,
    closes: usize,
    retired: usize,
    /// Settlements that were accepted.
    accepted: Vec<u64>,
    refuse_reservation: bool,
    refuse_publication: bool,
    fail_discard: bool,
}

impl State {
    fn tree(&mut self) -> &mut CancellationTree {
        self.tree.get_or_insert_with(CancellationTree::new)
    }
}

type Shared = Rc<RefCell<State>>;

fn interruption(state: &Shared, request: &ByteIoRequest) -> Option<SerialError> {
    let mut state = state.borrow_mut();
    let now_ns = state.now_ns;
    request.interruption(state.tree(), now_ns)
}

struct Watch(Shared);

impl CallWatch for Watch {
    fn is_cancelled(&mut self, token: CancellationToken) -> bool {
        token.is_cancelled(self.0.borrow_mut().tree())
    }

    fn now_ns(&mut self) -> u64 {
        self.0.borrow().now_ns
    }
}

struct Factory(Shared);

impl ByteIoFactory for Factory {
    type Stream = Io;

    fn open(
        &mut self,
        _port: &SerialPortDescriptor,
        baud_rate: u32,
        request: ByteIoRequest,
    ) -> Result<Io, SerialError> {
        if let Some(error) = interruption(&self.0, &request) {
            return Err(error);
        }
        self.0.borrow_mut().opened_bauds.push(baud_rate);
        Ok(Io(self.0.clone()))
    }

    fn retire(&mut self, stream: Io) {
        drop(stream);
        self.0.borrow_mut().retired += 1;
    }
}

struct Io(Shared);

impl ByteIo for Io {
    fn read(&mut self, buffer: &mut [u8], request: ByteIoRequest) -> Result<usize, SerialError> {
        if let Some(error) = interruption(&self.0, &request) {
            return Err(error);
        }
        let bytes = self.0.borrow_mut().reads.pop_front().expect("scripted read")?;
        let count = bytes.len().min(buffer.len());
        buffer[..count].copy_from_slice(&bytes[..count]);
        Ok(count)
    }

    fn write(&mut self, buffer: &[u8], request: ByteIoRequest) -> Result<usize, SerialError> {
        if let Some(error) = interruption(&self.0, &request) {
            return Err(error);
        }
        let count =
            self.0.borrow_mut().chunks.pop_front().unwrap_or(buffer.len()).min(buffer.len());
        let mut reply = SettlementReply::NotAsked;
        loop {
            match request.publish_final_write_acceptance(count, reply)? {
                SettlementStep::Settled => break,
                SettlementStep::Reserve(_) => {
                    reply = SettlementReply::Reserved(!self.0.borrow().refuse_reservation);
                }
                SettlementStep::Publish(settlement) => {
                    let refused = self.0.borrow().refuse_publication;
                    if !refused {
                        self.0.borrow_mut().accepted.push(settlement);
                    }
                    reply = SettlementReply::Published(!refused);
                }
            }
        }
        self.0.borrow_mut().writes.extend_from_slice(&buffer[..count]);
        Ok(count)
    }

    fn discard_input(&mut self, request: ByteIoRequest) -> Result<(), SerialError> {
        if let Some(error) = interruption(&self.0, &request) {
            return Err(error);
        }
        if self.0.borrow().fail_discard {
            return Err(SerialError::new(SerialErrorKind::NotFound, "gone"));
        }
        self.0.borrow_mut().discard_count += 1;
        Ok(())
    }

    fn close(&mut self) {
        self.0.borrow_mut().closes += 1;
    }
}

fn transport(state: &Shared) -> SerialControllerTransport<Watch, Factory> {
    let port = SerialPortDescriptor::new("ROOT\\TEST\\0", "COM-test").expect("port");
    SerialControllerTransport::new(Watch(state.clone()), port, Factory(state.clone()))
}

fn token(state: &Shared) -> CancellationToken {
    CancellationToken::root(state.borrow_mut().tree())
}

fn scripted(
    now_ns: u64,
    reads: Vec<Result<Vec<u8>, SerialError>>,
    chunks: Vec<usize>,
) -> Shared {
    Rc::new(RefCell::new(State {
        now_ns,
        reads: reads.into(),
        chunks: chunks.into(),
        ..State::default()
    }))
}

fn handshake_request(state: &Shared) -> HandshakeRequest {
    let deadline_ns = state.borrow().now_ns + 100;
    HandshakeRequest {
        operation_id: OperationId(1),
        baud_rate: 115_200,
        request_bytes: HANDSHAKE_REQUEST.to_vec(),
        expected_reply: HANDSHAKE_REPLY,
        deadline_ns,
        cancellation: token(state),
        resource_cancellation: token(state),
    }
}

fn context(sequence: u64, total_len: usize, kind: WriteKind) -> WriteContext {
    WriteContext {
        resource_id: ResourceId(1),
        operation_id: Some(OperationId(2)),
        sequence,
        timestamp_ns: 10,
        direct_timing: None,
        total_len,
        kind,
    }
}

fn write_request<'a>(
    state: &Shared,
    context: WriteContext,
    bytes: &'a [u8],
) -> WriteRequest<'a> {
    WriteRequest {
        context,
        bytes,
        deadline_ns: 100,
        cancellation: token(state),
        resource_cancellation: token(state),
        settlement: context.sequence,
    }
}

#[test]
fn injectable_adapter_handles_partial_handshake_and_command_generation() {
    let state = scripted(10, vec![Ok(vec![HANDSHAKE_REPLY]), Ok(vec![0xff])], vec![1; 5]);
    let mut transport = transport(&state);

    transport.handshake(handshake_request(&state)).expect("handshake");
    let context = context(7, 2, WriteKind::Command);
    let written = transport
        .write(write_request(&state, context, &[0xa5, 0x91]))
        .expect("first partial");
    assert_eq!(written, 1);
    assert!(
        state.borrow().accepted.is_empty(),
        "partial transport completion must not accept the logical report"
    );
    let written =
        transport.write(write_request(&state, context, &[0x91])).expect("second partial");
    assert_eq!(written, 1);
    assert_eq!(
        state.borrow().accepted,
        [7],
        "serial final-byte completion must claim the logical settlement"
    );
    let frame = transport
        .wait_for_ack(AckRequest {
            operation_id: OperationId(2),
            generation: 41,
            expected_reply: 0xff,
            deadline_ns: 100,
            cancellation: token(&state),
            resource_cancellation: token(&state),
        })
        .expect("ACK");

    assert_eq!(frame.generation, 41);
    assert_eq!(frame.byte, 0xff);
    let state = state.borrow();
    assert_eq!(state.opened_bauds, [115_200]);
    assert_eq!(state.writes, [0xa5, 0xa5, 0x81, 0xa5, 0x91]);
    assert_eq!(state.discard_count, 1);
}

#[test]
fn zero_progress_deadline_and_cancellation_are_normalized() {
    let state = scripted(10, vec![Ok(vec![HANDSHAKE_REPLY])], vec![3, 0]);
    let mut transport = transport(&state);
    transport.handshake(handshake_request(&state)).expect("handshake");

    let cancellation = token(&state);
    let resource_cancellation = token(&state);
    let context = context(1, 1, WriteKind::Report);
    let request = |bytes| WriteRequest {
        context,
        bytes,
        deadline_ns: 100,
        cancellation,
        resource_cancellation,
        settlement: 1,
    };
    let error = transport.write(request(&[1])).expect_err("zero progress");
    assert_eq!(error.kind(), TransportErrorKind::Io);

    state.borrow_mut().now_ns = 100;
    let error = transport.write(request(&[1])).expect_err("deadline");
    assert_eq!(error.kind(), TransportErrorKind::WriteTimeout);

    cancellation.cancel(state.borrow_mut().tree());
    let error = transport
        .wait_for_ack(AckRequest {
            operation_id: OperationId(2),
            generation: 1,
            expected_reply: 0xff,
            deadline_ns: 200,
            cancellation,
            resource_cancellation,
        })
        .expect_err("cancelled");
    assert_eq!(error.kind(), TransportErrorKind::Cancelled);
}

#[test]
fn close_is_idempotent_and_reopen_replaces_the_previous_stream() {
    let state = scripted(
        10,
        vec![Ok(vec![HANDSHAKE_REPLY]), Ok(vec![HANDSHAKE_REPLY])],
        vec![3, 3],
    );
    let mut transport = transport(&state);

    transport.handshake(handshake_request(&state)).expect("first handshake");
    transport.handshake(handshake_request(&state)).expect("replacement handshake");
    transport.close();
    transport.close();

    assert_eq!(state.borrow().closes, 2);
    assert_eq!(transport.port().port_name(), "COM-test");
}

#[test]
fn a_failed_handshake_closes_its_stream() {
    let state = scripted(10, vec![Ok(vec![0x11])], vec![]);
    let mut transport = transport(&state);
    let error = transport.handshake(handshake_request(&state)).expect_err("wrong reply");
    assert_eq!(error.kind(), TransportErrorKind::Protocol);
    assert_eq!(error.message(), "serial handshake reply did not match");
    assert_eq!((state.borrow().closes, state.borrow().retired), (1, 1));
    let error = transport
        .write(write_request(&state, context(1, 1, WriteKind::Report), &[1]))
        .expect_err("closed");
    assert_eq!(error.kind(), TransportErrorKind::Disconnected);
    assert_eq!(error.text(), "Disconnected: serial port is not open");

    state.borrow_mut().now_ns = 1_000;
    let mut late = handshake_request(&state);
    late.deadline_ns = 1_000;
    let error = transport.handshake(late).expect_err("deadline");
    assert_eq!(error.kind(), TransportErrorKind::Timeout);
    assert_eq!(state.borrow().opened_bauds.len(), 1);
}

#[test]
fn a_write_must_go_on_where_it_stopped() {
    let state = scripted(10, vec![Ok(vec![HANDSHAKE_REPLY])], vec![3, 2]);
    let mut transport = transport(&state);
    transport.handshake(handshake_request(&state)).expect("handshake");
    let first = context(1, 4, WriteKind::Report);
    let written = transport.write(write_request(&state, first, &[1, 2, 3, 4])).expect("part");
    assert_eq!(written, 2);
    let error = transport
        .write(write_request(&state, first, &[4]))
        .expect_err("a byte is missing");
    assert_eq!(error.kind(), TransportErrorKind::Disconnected);
    assert_eq!(error.message(), "serial partial-write continuity was lost; stream closed");
    assert_eq!((state.borrow().closes, state.borrow().retired), (1, 1));
    let sent: Vec<u8> = HANDSHAKE_REQUEST.iter().copied().chain([1, 2]).collect();
    assert_eq!(state.borrow().writes, sent, "nothing of the broken write is sent");
    assert_eq!(state.borrow().discard_count, 0);
    let error = transport
        .write(write_request(&state, first, &[3, 4]))
        .expect_err("the stream is gone");
    assert_eq!(
        error.message(),
        "serial write resumed without an owned partial payload; stream closed"
    );
    transport.close();
    assert_eq!((state.borrow().closes, state.borrow().retired), (1, 1));
    let error = transport.write(write_request(&state, first, &[])).expect_err("empty");
    assert_eq!(error.kind(), TransportErrorKind::Protocol);
    let error =
        transport.write(write_request(&state, first, &[0; 5])).expect_err("too many bytes");
    assert_eq!(error.message(), "serial write remainder exceeds its logical payload");
}

#[test]
fn every_field_of_the_context_belongs_to_a_write() {
    let first = context(1, 2, WriteKind::Report);
    let others = [
        WriteContext { resource_id: ResourceId(9), ..first },
        WriteContext { operation_id: None, ..first },
        WriteContext { sequence: 2, ..first },
        WriteContext { timestamp_ns: 11, ..first },
        WriteContext { direct_timing: Some(5), ..first },
        WriteContext { kind: WriteKind::Command, ..first },
    ];
    for other in others {
        let state = scripted(10, vec![Ok(vec![HANDSHAKE_REPLY])], vec![3, 1]);
        let mut transport = transport(&state);
        transport.handshake(handshake_request(&state)).expect("handshake");
        assert_eq!(transport.write(write_request(&state, first, &[1, 2])).expect("part"), 1);
        let error =
            transport.write(write_request(&state, other, &[2])).expect_err("another write");
        assert_eq!(error.kind(), TransportErrorKind::Disconnected);
        assert_eq!(error.message(), "serial partial-write continuity was lost; stream closed");
        assert_eq!((state.borrow().closes, state.borrow().retired), (1, 1));
    }

    let timed = WriteContext { direct_timing: Some(5), ..first };
    assert!(timed.same_as(&timed));
    assert!(!timed.same_as(&WriteContext { direct_timing: Some(6), ..first }));
}

#[test]
fn a_failure_after_a_part_closes_the_stream() {
    let state = scripted(10, vec![Ok(vec![HANDSHAKE_REPLY])], vec![3, 1, 0]);
    let mut transport = transport(&state);
    transport.handshake(handshake_request(&state)).expect("handshake");
    let context = context(1, 2, WriteKind::Report);
    assert_eq!(transport.write(write_request(&state, context, &[1, 2])).expect("part"), 1);
    let error = transport.write(write_request(&state, context, &[2])).expect_err("no progress");
    assert_eq!(error.kind(), TransportErrorKind::Disconnected);
    assert_eq!(
        error.message(),
        "serial stream closed after partial-write failure: \
         Io: ZeroProgress: serial byte I/O returned zero progress"
    );
    assert_eq!(state.borrow().closes, 1);
}

#[test]
fn a_failed_purge_keeps_the_stream_and_is_tried_again() {
    let state = scripted(10, vec![Ok(vec![HANDSHAKE_REPLY])], vec![]);
    let mut transport = transport(&state);
    transport.handshake(handshake_request(&state)).expect("handshake");
    state.borrow_mut().fail_discard = true;
    let context = context(5, 1, WriteKind::Command);
    let error = transport.write(write_request(&state, context, &[9])).expect_err("purge");
    assert_eq!(error.kind(), TransportErrorKind::Disconnected);
    assert_eq!(state.borrow().closes, 0);
    state.borrow_mut().fail_discard = false;
    assert_eq!(transport.write(write_request(&state, context, &[9])).expect("written"), 1);
    assert_eq!(state.borrow().discard_count, 1);
}

#[test]
fn settlement_failures_are_reported() {
    let state = scripted(10, vec![], vec![]);
    let request = ByteIoRequest {
        operation: ByteIoOperation::Open,
        deadline_ns: 100,
        cancellation: token(&state),
        resource_cancellation: token(&state),
        final_write_settlement: None,
    };
    let settled = |accepted_before, total_len, written, reply| {
        request
            .with_final_write_settlement(3, accepted_before, total_len)
            .publish_final_write_acceptance(written, reply)
    };
    assert_eq!(
        request.publish_final_write_acceptance(9, SettlementReply::NotAsked).expect("none"),
        SettlementStep::Settled
    );
    assert_eq!(
        settled(1, 4, 2, SettlementReply::NotAsked).expect("partial"),
        SettlementStep::Settled
    );
    assert_eq!(
        settled(1, 4, 3, SettlementReply::NotAsked).expect("final"),
        SettlementStep::Reserve(3)
    );
    assert_eq!(
        settled(1, 4, 3, SettlementReply::Reserved(true)).expect("reserved"),
        SettlementStep::Publish(3)
    );
    let messages = [
        (settled(usize::MAX, usize::MAX, 1, SettlementReply::NotAsked),
            "serial final-byte settlement count overflowed"),
        (settled(1, 4, 4, SettlementReply::NotAsked),
            "serial backend completion exceeded its logical report length"),
        (settled(1, 4, 3, SettlementReply::Reserved(false)),
            "serial backend rejected final-byte settlement reservation"),
        (settled(1, 4, 3, SettlementReply::Published(false)),
            "serial backend could not publish final-byte settlement"),
    ];
    for (result, message) in messages {
        assert_eq!(result.expect_err("refused").message(), message);
    }

    let tree = &mut CancellationTree::new();
    let root = CancellationToken::root(tree);
    let request = ByteIoRequest { cancellation: root, resource_cancellation: root, ..request };
    assert!(request.interruption(tree, 99).is_none());
    let error = request.interruption(tree, 100).expect("deadline");
    assert_eq!(error.kind(), SerialErrorKind::DeadlineExceeded);
    assert!(error.backend_proved_zero_effect());
    root.cancel(tree);
    let error = request.interruption(tree, 100).expect("cancelled");
    assert_eq!(error.kind(), SerialErrorKind::Cancelled);
    assert!(error.backend_proved_zero_effect());
}

#[test]
fn refused_settlement_fails_the_write() {
    for publication in [false, true] {
        let state = scripted(10, vec![Ok(vec![HANDSHAKE_REPLY])], vec![]);
        let mut transport = transport(&state);
        transport.handshake(handshake_request(&state)).expect("handshake");
        if publication {
            state.borrow_mut().refuse_publication = true;
        } else {
            state.borrow_mut().refuse_reservation = true;
        }
        let error = transport
            .write(write_request(&state, context(1, 1, WriteKind::Neutralize), &[1]))
            .expect_err("refused");
        assert_eq!(error.kind(), TransportErrorKind::Io);
        assert!(state.borrow().accepted.is_empty());
    }
}

#[test]
fn white_space_alone_is_blank() {
    for code in 0..=0x10FFFF_u32 {
        let Some(c) = char::from_u32(code) else { continue };
        let white = matches!(
            code,
            0x09..=0x0D | 0x20 | 0x85 | 0xA0 | 0x1680 | 0x2000..=0x200A | 0x2028 | 0x2029 | 0x202F
                | 0x205F | 0x3000
        );
        let mut buffer = [0; 4];
        assert_eq!(blank(c.encode_utf8(&mut buffer)), white, "{code:x}");
    }
    assert!(blank(""));
    assert!(!blank(" COM3 "));
}
